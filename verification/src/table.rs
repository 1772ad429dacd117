//! A small map from strings to plain values, kept as a vector of entries
//! with distinct keys. Its view is a `Map`.

use vstd::prelude::*;

verus! {

/// The keys of a list of entries, in order.
pub open spec fn keys_of<V>(s: Seq<(String, V)>) -> Seq<Seq<char>> {
    Seq::new(s.len(), |i: int| s[i].0@)
}

/// The map that a list of entries with distinct keys stands for.
pub open spec fn map_of<V>(s: Seq<(String, V)>) -> Map<Seq<char>, V> {
    Map::new(
        |k: Seq<char>| keys_of(s).contains(k),
        |k: Seq<char>| s[keys_of(s).index_of(k)].1,
    )
}

/// The entries of `m` whose value satisfies `keep`.
pub open spec fn retained<V>(m: Map<Seq<char>, V>, keep: spec_fn(V) -> bool) -> Map<Seq<char>, V> {
    Map::new(|k: Seq<char>| m.dom().contains(k) && keep(m[k]), |k: Seq<char>| m[k])
}

proof fn lemma_map_of_index<V>(s: Seq<(String, V)>, i: int)
    requires
        keys_of(s).no_duplicates(),
        0 <= i < s.len(),
    ensures
        map_of(s).dom().contains(s[i].0@),
        map_of(s)[s[i].0@] == s[i].1,
{
    let ks = keys_of(s);
    assert(ks[i] == s[i].0@);
    assert(ks.contains(s[i].0@));
    let j = ks.index_of(s[i].0@);
    assert(0 <= j < ks.len() && ks[j] == s[i].0@);
}

proof fn lemma_map_of_push<V>(s: Seq<(String, V)>, e: (String, V))
    requires
        keys_of(s).no_duplicates(),
        !keys_of(s).contains(e.0@),
    ensures
        keys_of(s.push(e)).no_duplicates(),
        keys_of(s.push(e)) == keys_of(s).push(e.0@),
        map_of(s.push(e)) == map_of(s).insert(e.0@, e.1),
{
    let t = s.push(e);
    assert(keys_of(t) =~= keys_of(s).push(e.0@));
    let kt = keys_of(t);
    let ks = keys_of(s);
    assert forall|a: int, b: int| 0 <= a < kt.len() && 0 <= b < kt.len() && a != b implies kt[a]
        != kt[b] by {
        if a < s.len() && b < s.len() {
        } else if a == s.len() {
            assert(ks[b] == kt[b]);
        } else {
            assert(ks[a] == kt[a]);
        }
    }
    assert forall|k: Seq<char>| #[trigger] map_of(t).dom().contains(k) <==> map_of(s).insert(
        e.0@,
        e.1,
    ).dom().contains(k) by {
        if kt.contains(k) && k != e.0@ {
            let j = choose|j: int| 0 <= j < kt.len() && kt[j] == k;
            assert(j < s.len());
            assert(ks[j] == k);
        }
        if ks.contains(k) {
            let j = choose|j: int| 0 <= j < ks.len() && ks[j] == k;
            assert(kt[j] == k);
        }
        if k == e.0@ {
            assert(kt[s.len() as int] == k);
        }
    }
    assert forall|k: Seq<char>| #[trigger] map_of(t).dom().contains(k) implies map_of(t)[k]
        == map_of(s).insert(e.0@, e.1)[k] by {
        let j = choose|j: int| 0 <= j < kt.len() && kt[j] == k;
        lemma_map_of_index(t, j);
        if j < s.len() {
            lemma_map_of_index(s, j);
        }
    }
    assert(map_of(t) =~= map_of(s).insert(e.0@, e.1));
}

proof fn lemma_map_of_update<V>(s: Seq<(String, V)>, i: int, v: V)
    requires
        keys_of(s).no_duplicates(),
        0 <= i < s.len(),
    ensures
        keys_of(s.update(i, (s[i].0, v))) == keys_of(s),
        map_of(s.update(i, (s[i].0, v))) == map_of(s).insert(s[i].0@, v),
{
    let t = s.update(i, (s[i].0, v));
    assert(keys_of(t) =~= keys_of(s));
    let ks = keys_of(s);
    let kt = keys_of(t);
    assert forall|k: Seq<char>| #[trigger] map_of(t).dom().contains(k) implies map_of(t)[k]
        == map_of(s).insert(s[i].0@, v)[k] by {
        assert(kt.contains(k));
        let j = choose|j: int| 0 <= j < kt.len() && kt[j] == k;
        assert(ks[j] == k);
        assert(ks[i] == s[i].0@);
        lemma_map_of_index(t, j);
        lemma_map_of_index(s, j);
        if j == i {
            assert(t[j].1 == v);
        } else {
            assert(k != s[i].0@);
            assert(t[j] == s[j]);
        }
    }
    lemma_map_of_index(s, i);
    assert(map_of(t) =~= map_of(s).insert(s[i].0@, v));
}

proof fn lemma_remove_index<A>(s: Seq<A>, i: int, a: int)
    requires
        0 <= i < s.len(),
        0 <= a < s.len() - 1,
    ensures
        s.remove(i).len() == s.len() - 1,
        s.remove(i)[a] == s[if a < i { a } else { a + 1 }],
{
    let left = s.subrange(0, i);
    let right = s.subrange(i + 1, s.len() as int);
    assert(s.remove(i) =~= left + right);
    if a < i {
        assert((left + right)[a] == left[a]);
    } else {
        assert((left + right)[a] == right[a - i]);
    }
}

proof fn lemma_map_of_remove<V>(s: Seq<(String, V)>, i: int)
    requires
        keys_of(s).no_duplicates(),
        0 <= i < s.len(),
    ensures
        keys_of(s.remove(i)).no_duplicates(),
        map_of(s.remove(i)) == map_of(s).remove(s[i].0@),
{
    let t = s.remove(i);
    let ks = keys_of(s);
    let kt = keys_of(t);
    if s.len() > 1 {
        lemma_remove_index(s, i, 0);
    } else {
        assert(s.remove(i) =~= Seq::<(String, V)>::empty());
    }
    assert forall|a: int, b: int| 0 <= a < kt.len() && 0 <= b < kt.len() && a != b implies kt[a]
        != kt[b] by {
        let a2 = if a < i { a } else { a + 1 };
        let b2 = if b < i { b } else { b + 1 };
        lemma_remove_index(s, i, a);
        lemma_remove_index(s, i, b);
        assert(kt[a] == ks[a2] && kt[b] == ks[b2]);
    }
    assert forall|k: Seq<char>| #[trigger] map_of(t).dom().contains(k) <==> map_of(s).remove(
        s[i].0@,
    ).dom().contains(k) by {
        assert(ks[i] == s[i].0@);
        if kt.contains(k) {
            let j = choose|j: int| 0 <= j < kt.len() && kt[j] == k;
            let j2 = if j < i { j } else { j + 1 };
            lemma_remove_index(s, i, j);
            assert(ks[j2] == k);
            assert(j2 != i);
        }
        if ks.contains(k) && k != s[i].0@ {
            let j = choose|j: int| 0 <= j < ks.len() && ks[j] == k;
            assert(j != i);
            let j2 = if j < i { j } else { j - 1 };
            lemma_remove_index(s, i, j2);
            assert(kt[j2] == k);
        }
    }
    assert forall|k: Seq<char>| #[trigger] map_of(t).dom().contains(k) implies map_of(t)[k]
        == map_of(s)[k] by {
        let j = choose|j: int| 0 <= j < kt.len() && kt[j] == k;
        let j2 = if j < i { j } else { j + 1 };
        lemma_remove_index(s, i, j);
        lemma_map_of_index(t, j);
        lemma_map_of_index(s, j2);
    }
    assert(map_of(t) =~= map_of(s).remove(s[i].0@));
}

proof fn lemma_map_of_len<V>(s: Seq<(String, V)>)
    requires
        keys_of(s).no_duplicates(),
    ensures
        map_of(s).dom().finite(),
        map_of(s).len() == s.len(),
{
    let ks = keys_of(s);
    assert(map_of(s).dom() =~= ks.to_set());
    ks.unique_seq_to_set();
}

/// Entries with distinct keys.
pub struct KeyedTable<V> {
    entries: Vec<(String, V)>,
}

impl<V: Copy> View for KeyedTable<V> {
    type V = Map<Seq<char>, V>;

    closed spec fn view(&self) -> Map<Seq<char>, V> {
        map_of(self.entries@)
    }
}

impl<V: Copy> KeyedTable<V> {
    /// No key occurs twice.
    pub closed spec fn wf(self) -> bool {
        keys_of(self.entries@).no_duplicates()
    }

    /// An empty table.
    pub fn new() -> (res: Self)
        ensures
            res.wf(),
            res@ == Map::<Seq<char>, V>::empty(),
    {
        let res = KeyedTable { entries: Vec::new() };
        assert(res@ =~= Map::<Seq<char>, V>::empty());
        res
    }

    /// The number of entries.
    pub fn len(&self) -> (res: usize)
        requires
            self.wf(),
        ensures
            self@.dom().finite(),
            res == self@.len(),
    {
        proof {
            lemma_map_of_len(self.entries@);
        }
        self.entries.len()
    }

    fn position(&self, key: &String) -> (res: Option<usize>)
        requires
            self.wf(),
        ensures
            match res {
                Some(i) => i < self.entries@.len() && self.entries@[i as int].0@ == key@,
                None => !self@.dom().contains(key@),
            },
    {
        let mut i: usize = 0;
        while i < self.entries.len()
            invariant
                i <= self.entries@.len(),
                forall|j: int| 0 <= j < i ==> self.entries@[j].0@ != key@,
            decreases self.entries.len() - i,
        {
            if self.entries[i].0 == *key {
                return Some(i);
            }
            i = i + 1;
        }
        proof {
            if keys_of(self.entries@).contains(key@) {
                let j = choose|j: int|
                    0 <= j < keys_of(self.entries@).len() && keys_of(self.entries@)[j] == key@;
                assert(self.entries@[j].0@ == key@);
            }
        }
        None
    }

    /// The value stored under `key`, if any.
    pub fn get(&self, key: &String) -> (res: Option<V>)
        requires
            self.wf(),
        ensures
            res == self@.get(key@),
    {
        match self.position(key) {
            Some(i) => {
                proof {
                    lemma_map_of_index(self.entries@, i as int);
                }
                Some(self.entries[i].1)
            },
            None => None,
        }
    }

    /// Stores `value` under `key`; tells whether the key was already there.
    pub fn insert(&mut self, key: String, value: V) -> (had: bool)
        requires
            old(self).wf(),
        ensures
            final(self).wf(),
            final(self)@ == old(self)@.insert(key@, value),
            had == old(self)@.dom().contains(key@),
    {
        match self.position(&key) {
            Some(i) => {
                proof {
                    lemma_map_of_index(self.entries@, i as int);
                    lemma_map_of_update(self.entries@, i as int, value);
                }
                let k = self.entries[i].0.clone();
                self.entries.set(i, (k, value));
                true
            },
            None => {
                proof {
                    if keys_of(self.entries@).contains(key@) {
                        let j = choose|j: int|
                            0 <= j < keys_of(self.entries@).len() && keys_of(self.entries@)[j]
                                == key@;
                        lemma_map_of_index(self.entries@, j);
                    }
                    lemma_map_of_push(self.entries@, (key, value));
                }
                self.entries.push((key, value));
                false
            },
        }
    }

    /// Removes `key` and its value, if present.
    pub fn remove(&mut self, key: &String)
        requires
            old(self).wf(),
        ensures
            final(self).wf(),
            final(self)@ == old(self)@.remove(key@),
    {
        match self.position(key) {
            Some(i) => {
                proof {
                    lemma_map_of_remove(self.entries@, i as int);
                }
                self.entries.remove(i);
            },
            None => {
                assert(self@.remove(key@) =~= self@);
            },
        }
    }

    /// Keeps only the entries whose value satisfies `keep`.
    pub fn retain<F: Fn(&V) -> bool>(&mut self, keep: F, Ghost(pred): Ghost<spec_fn(V) -> bool>)
        requires
            old(self).wf(),
            forall|v: V| #[trigger] keep.requires((&v,)),
            forall|v: V, b: bool| keep.ensures((&v,), b) ==> b == pred(v),
        ensures
            final(self).wf(),
            final(self)@ == retained(old(self)@, pred),
    {
        let mut kept: Vec<(String, V)> = Vec::new();
        let mut i: usize = 0;
        let ghost s = self.entries@;
        while i < self.entries.len()
            invariant
                self.entries@ == s,
                keys_of(s).no_duplicates(),
                forall|v: V| #[trigger] keep.requires((&v,)),
                forall|v: V, b: bool| keep.ensures((&v,), b) ==> b == pred(v),
                i <= s.len(),
                keys_of(kept@).no_duplicates(),
                forall|k: Seq<char>|
                    keys_of(kept@).contains(k) ==> keys_of(s.subrange(0, i as int)).contains(k),
                map_of(kept@) == retained(map_of(s.subrange(0, i as int)), pred),
            decreases s.len() - i,
        {
            let v = self.entries[i].1;
            let k_keep = keep(&v);
            proof {
                let pre = s.subrange(0, i as int);
                let ks = keys_of(s);
                assert(pre.len() == i);
                assert(keys_of(pre).len() == i);
                assert forall|a: int, b: int|
                    0 <= a < keys_of(pre).len() && 0 <= b < keys_of(pre).len() && a != b implies keys_of(
                        pre,
                    )[a] != keys_of(pre)[b] by {
                    assert(pre[a] == s[a] && pre[b] == s[b]);
                    assert(ks[a] != ks[b]);
                }
                assert(s.subrange(0, i + 1) =~= pre.push(s[i as int]));
                assert(!keys_of(pre).contains(s[i as int].0@)) by {
                    if keys_of(pre).contains(s[i as int].0@) {
                        let j = choose|j: int|
                            0 <= j < keys_of(pre).len() && keys_of(pre)[j] == s[i as int].0@;
                        assert(pre[j] == s[j]);
                        assert(ks[j] == ks[i as int]);
                    }
                }
                lemma_map_of_push(pre, s[i as int]);
                assert forall|k: Seq<char>| keys_of(pre).contains(k) implies keys_of(
                    pre.push(s[i as int]),
                ).contains(k) by {
                    let j = choose|j: int| 0 <= j < keys_of(pre).len() && keys_of(pre)[j] == k;
                    assert(keys_of(pre.push(s[i as int]))[j] == k);
                }
            }
            if k_keep {
                let key = self.entries[i].0.clone();
                proof {
                    lemma_map_of_push(kept@, (key, v));
                    let pre = s.subrange(0, i as int);
                    let m = map_of(pre);
                    assert(retained(m.insert(s[i as int].0@, v), pred) =~= retained(m, pred).insert(
                        s[i as int].0@,
                        v,
                    ));
                    assert forall|k: Seq<char>| keys_of(kept@.push((key, v))).contains(k) implies keys_of(
                        pre.push(s[i as int]),
                    ).contains(k) by {
                        let j = choose|j: int|
                            0 <= j < keys_of(kept@.push((key, v))).len() && keys_of(
                                kept@.push((key, v)),
                            )[j] == k;
                        if j < kept@.len() {
                            assert(keys_of(kept@)[j] == k);
                            assert(keys_of(kept@).contains(k));
                            assert(keys_of(pre).contains(k));
                        } else {
                            assert(keys_of(pre.push(s[i as int]))[i as int] == k);
                        }
                    }
                }
                kept.push((key, v));
            } else {
                proof {
                    let pre = s.subrange(0, i as int);
                    let m = map_of(pre);
                    assert(retained(m.insert(s[i as int].0@, v), pred) =~= retained(m, pred));
                }
            }
            i = i + 1;
        }
        proof {
            assert(s.subrange(0, s.len() as int) =~= s);
        }
        self.entries = kept;
    }
}

} // verus!
