//! Finite maps keyed by name, stored as a vector of entries.
//!
//! Keys are compared by their character content; a well-formed map never
//! holds two entries with the same name.

use vstd::prelude::*;
use vstd::string::StringExecFns;

verus! {

/// The names of an entry sequence, as character sequences, in storage order.
pub open spec fn entry_names<V>(s: Seq<(String, V)>) -> Seq<Seq<char>> {
    s.map_values(|e: (String, V)| e.0@)
}

/// No two entries carry the same name.
pub open spec fn names_unique<V>(s: Seq<(String, V)>) -> bool {
    forall|i: int, j: int| 0 <= i < j < s.len() ==> s[i].0@ != s[j].0@
}

/// The mathematical map denoted by an entry sequence. The earliest entry
/// for a name wins; under `names_unique` a name occurs at most once.
pub open spec fn names_map<V>(s: Seq<(String, V)>) -> Map<Seq<char>, V>
    decreases s.len(),
{
    if s.len() == 0 {
        Map::empty()
    } else {
        names_map(s.drop_first()).insert(s.first().0@, s.first().1)
    }
}

proof fn lemma_names_map_contains<V>(s: Seq<(String, V)>, k: Seq<char>)
    ensures
        names_map(s).contains_key(k) <==> entry_names(s).contains(k),
    decreases s.len(),
{
    if s.len() == 0 {
    } else {
        lemma_names_map_contains(s.drop_first(), k);
        if names_map(s).contains_key(k) {
            if s.first().0@ == k {
                assert(entry_names(s)[0] == k);
            } else {
                let j = choose|j: int|
                    0 <= j < entry_names(s.drop_first()).len() && entry_names(s.drop_first())[j]
                        == k;
                assert(entry_names(s)[j + 1] == k);
            }
        }
        if entry_names(s).contains(k) {
            let j = choose|j: int| 0 <= j < entry_names(s).len() && entry_names(s)[j] == k;
            if j == 0 {
                assert(s.first().0@ == k);
            } else {
                assert(entry_names(s.drop_first())[j - 1] == k);
                assert(entry_names(s.drop_first()).contains(k));
            }
        }
    }
}

proof fn lemma_names_map_at<V>(s: Seq<(String, V)>, i: int)
    requires
        names_unique(s),
        0 <= i < s.len(),
    ensures
        names_map(s).contains_key(s[i].0@),
        names_map(s)[s[i].0@] == s[i].1,
    decreases s.len(),
{
    if i == 0 {
    } else {
        lemma_names_map_at(s.drop_first(), i - 1);
        assert(s.drop_first()[i - 1] == s[i]);
        assert(s.first().0@ != s[i].0@);
    }
}

/// Replacing (or adding) the single entry named `k` inserts `k` in the map,
/// provided every entry before the spot has another name.
proof fn lemma_names_map_insert<V>(
    pre: Seq<(String, V)>,
    mid: Seq<(String, V)>,
    suf: Seq<(String, V)>,
    name: String,
    v: V,
)
    requires
        forall|i: int| 0 <= i < pre.len() ==> pre[i].0@ != name@,
        forall|i: int| 0 <= i < mid.len() ==> mid[i].0@ == name@,
        mid.len() <= 1,
    ensures
        names_map(pre + seq![(name, v)] + suf) == names_map(pre + mid + suf).insert(name@, v),
    decreases pre.len(),
{
    if pre.len() == 0 {
        assert((pre + seq![(name, v)] + suf).drop_first() =~= suf);
        assert(names_map(pre + seq![(name, v)] + suf) == names_map(suf).insert(name@, v));
        if mid.len() == 0 {
            assert(pre + mid + suf =~= suf);
        } else {
            assert((pre + mid + suf).drop_first() =~= suf);
            assert(names_map(pre + mid + suf) == names_map(suf).insert(name@, mid[0].1));
            assert(names_map(suf).insert(name@, mid[0].1).insert(name@, v) =~= names_map(
                suf,
            ).insert(name@, v));
        }
    } else {
        let h = pre.first();
        let pd = pre.drop_first();
        assert((pre + seq![(name, v)] + suf).drop_first() =~= pd + seq![(name, v)] + suf);
        assert((pre + mid + suf).drop_first() =~= pd + mid + suf);
        lemma_names_map_insert(pd, mid, suf, name, v);
        let inner = names_map(pd + mid + suf);
        assert(names_map(pre + seq![(name, v)] + suf) == inner.insert(name@, v).insert(h.0@, h.1));
        assert(names_map(pre + mid + suf).insert(name@, v) == inner.insert(h.0@, h.1).insert(
            name@,
            v,
        ));
        assert(inner.insert(name@, v).insert(h.0@, h.1) =~= inner.insert(h.0@, h.1).insert(
            name@,
            v,
        ));
    }
}

/// Dropping the single entry named `k` removes `k` from the map, provided
/// no other entry carries that name.
proof fn lemma_names_map_remove<V>(pre: Seq<(String, V)>, mid: (String, V), suf: Seq<(String, V)>)
    requires
        forall|i: int| 0 <= i < pre.len() ==> pre[i].0@ != mid.0@,
        forall|i: int| 0 <= i < suf.len() ==> suf[i].0@ != mid.0@,
    ensures
        names_map(pre + suf) == names_map(pre + seq![mid] + suf).remove(mid.0@),
    decreases pre.len(),
{
    let k = mid.0@;
    if pre.len() == 0 {
        assert((pre + seq![mid] + suf).drop_first() =~= suf);
        assert(names_map(pre + seq![mid] + suf) == names_map(suf).insert(k, mid.1));
        lemma_names_map_contains(suf, k);
        if entry_names(suf).contains(k) {
            let j = choose|j: int| 0 <= j < entry_names(suf).len() && entry_names(suf)[j] == k;
            assert(suf[j].0@ == k);
        }
        assert(pre + suf =~= suf);
        assert(names_map(suf).insert(k, mid.1).remove(k) =~= names_map(suf));
    } else {
        let h = pre.first();
        let pd = pre.drop_first();
        assert((pre + seq![mid] + suf).drop_first() =~= pd + seq![mid] + suf);
        assert((pre + suf).drop_first() =~= pd + suf);
        lemma_names_map_remove(pd, mid, suf);
        let inner = names_map(pd + seq![mid] + suf);
        assert(names_map(pre + suf) == inner.remove(k).insert(h.0@, h.1));
        assert(names_map(pre + seq![mid] + suf).remove(k) == inner.insert(h.0@, h.1).remove(k));
        assert(inner.remove(k).insert(h.0@, h.1) =~= inner.insert(h.0@, h.1).remove(k));
    }
}

/// A finite map from names to values of type `V`.
pub struct NamedMap<V> {
    entries: Vec<(String, V)>,
}

impl<V> View for NamedMap<V> {
    type V = Map<Seq<char>, V>;

    closed spec fn view(&self) -> Map<Seq<char>, V> {
        names_map(self.entries@)
    }
}

impl<V> NamedMap<V> {
    /// The names in storage (= iteration) order.
    pub closed spec fn name_seq(&self) -> Seq<Seq<char>> {
        entry_names(self.entries@)
    }

    /// Names never repeat.
    pub closed spec fn wf(&self) -> bool {
        names_unique(self.entries@)
    }

    /// The correspondence between the name sequence and the map.
    pub proof fn lemma_name_seq(&self)
        ensures
            forall|k: Seq<char>| self@.contains_key(k) <==> self.name_seq().contains(k),
    {
        assert forall|k: Seq<char>| self@.contains_key(k) <==> self.name_seq().contains(k) by {
            lemma_names_map_contains(self.entries@, k);
        }
    }

    pub fn new() -> (m: Self)
        ensures
            m.wf(),
            m@ == Map::<Seq<char>, V>::empty(),
            m.name_seq() == Seq::<Seq<char>>::empty(),
    {
        let m = NamedMap { entries: Vec::new() };
        proof {
            assert(m.name_seq() =~= Seq::<Seq<char>>::empty());
        }
        m
    }

    pub fn len(&self) -> (n: usize)
        ensures
            n == self.name_seq().len(),
    {
        self.entries.len()
    }

    pub fn name_at(&self, i: usize) -> (name: &String)
        requires
            i < self.name_seq().len(),
        ensures
            name@ == self.name_seq()[i as int],
            self.wf() ==> self@.contains_key(name@),
    {
        proof {
            if self.wf() {
                lemma_names_map_at(self.entries@, i as int);
            }
        }
        &self.entries[i].0
    }

    pub fn val_at(&self, i: usize) -> (v: &V)
        requires
            self.wf(),
            i < self.name_seq().len(),
        ensures
            self@.contains_key(self.name_seq()[i as int]),
            *v == self@[self.name_seq()[i as int]],
    {
        proof {
            lemma_names_map_at(self.entries@, i as int);
        }
        &self.entries[i].1
    }

    pub fn get(&self, name: &str) -> (r: Option<&V>)
        requires
            self.wf(),
        ensures
            match r {
                Some(v) => self@.contains_key(name@) && *v == self@[name@],
                None => !self@.contains_key(name@),
            },
    {
        let wanted = String::from_str(name);
        let n = self.entries.len();
        let mut i: usize = 0;
        while i < n
            invariant
                self.wf(),
                n == self.entries@.len(),
                i <= n,
                wanted@ == name@,
                forall|j: int| 0 <= j < i ==> self.entries@[j].0@ != name@,
            decreases n - i,
        {
            if self.entries[i].0 == wanted {
                proof {
                    lemma_names_map_at(self.entries@, i as int);
                }
                return Some(&self.entries[i].1);
            }
            i += 1;
        }
        proof {
            lemma_names_map_contains(self.entries@, name@);
            if entry_names(self.entries@).contains(name@) {
                let j = choose|j: int|
                    0 <= j < entry_names(self.entries@).len() && entry_names(self.entries@)[j]
                        == name@;
                assert(self.entries@[j].0@ == name@);
            }
        }
        None
    }

    pub fn has(&self, name: &str) -> (b: bool)
        requires
            self.wf(),
        ensures
            b == self@.contains_key(name@),
    {
        self.get(name).is_some()
    }

    /// Insert or overwrite the entry named `name`.
    pub fn set(&mut self, name: String, v: V)
        requires
            old(self).wf(),
        ensures
            final(self).wf(),
            final(self)@ == old(self)@.insert(name@, v),
    {
        let ghost s_old = self.entries@;
        let n = self.entries.len();
        let mut i: usize = 0;
        while i < n
            invariant
                self.wf(),
                self.entries@ == s_old,
                old(self).entries@ == s_old,
                n == self.entries@.len(),
                i <= n,
                forall|j: int| 0 <= j < i ==> self.entries@[j].0@ != name@,
            decreases n - i,
        {
            if self.entries[i].0 == name {
                let ghost pre = s_old.subrange(0, i as int);
                let ghost suf = s_old.subrange(i as int + 1, s_old.len() as int);
                let _ = self.entries.remove(i);
                self.entries.insert(i, (name, v));
                proof {
                    let ghost mid = seq![s_old[i as int]];
                    assert(s_old =~= pre + mid + suf);
                    assert(self.entries@ =~= pre + seq![(name, v)] + suf);
                    lemma_names_map_insert(pre, mid, suf, name, v);
                    assert forall|p: int, q: int|
                        0 <= p < q < self.entries@.len() implies self.entries@[p].0@
                        != self.entries@[q].0@ by {
                        assert(forall|l: int|
                            0 <= l < s_old.len() && l != i ==> #[trigger] s_old[l]
                                == self.entries@[l]);
                        assert(s_old[i as int].0@ == self.entries@[i as int].0@);
                    }
                }
                return ;
            }
            i += 1;
        }
        let ghost pre = s_old;
        self.entries.push((name, v));
        proof {
            let ghost mid = Seq::<(String, V)>::empty();
            let ghost suf = Seq::<(String, V)>::empty();
            assert(s_old =~= pre + mid + suf);
            assert(self.entries@ =~= pre + seq![(name, v)] + suf);
            lemma_names_map_insert(pre, mid, suf, name, v);
        }
    }

    /// Remove and return the entry named `name`, if any.
    pub fn take(&mut self, name: &str) -> (r: Option<V>)
        requires
            old(self).wf(),
        ensures
            final(self).wf(),
            match r {
                Some(v) => old(self)@.contains_key(name@) && v == old(self)@[name@]
                    && final(self)@ == old(self)@.remove(name@),
                None => !old(self)@.contains_key(name@) && final(self)@ == old(self)@,
            },
    {
        let ghost s_old = self.entries@;
        let wanted = String::from_str(name);
        let n = self.entries.len();
        let mut i: usize = 0;
        while i < n
            invariant
                self.wf(),
                self.entries@ == s_old,
                old(self).entries@ == s_old,
                n == self.entries@.len(),
                i <= n,
                wanted@ == name@,
                forall|j: int| 0 <= j < i ==> self.entries@[j].0@ != name@,
            decreases n - i,
        {
            if self.entries[i].0 == wanted {
                proof {
                    lemma_names_map_at(self.entries@, i as int);
                }
                let ghost pre = s_old.subrange(0, i as int);
                let ghost suf = s_old.subrange(i as int + 1, s_old.len() as int);
                let e = self.entries.remove(i);
                proof {
                    assert(s_old =~= pre + seq![s_old[i as int]] + suf);
                    assert(self.entries@ =~= pre + suf);
                    lemma_names_map_remove(pre, s_old[i as int], suf);
                    assert forall|p: int, q: int|
                        0 <= p < q < self.entries@.len() implies self.entries@[p].0@
                        != self.entries@[q].0@ by {}
                }
                return Some(e.1);
            }
            i += 1;
        }
        proof {
            lemma_names_map_contains(self.entries@, name@);
            if entry_names(self.entries@).contains(name@) {
                let j = choose|j: int|
                    0 <= j < entry_names(self.entries@).len() && entry_names(self.entries@)[j]
                        == name@;
                assert(self.entries@[j].0@ == name@);
            }
        }
        None
    }
}

} // verus!
