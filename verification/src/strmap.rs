//! Maps keyed by strings, kept as insertion-ordered entry lists with
//! distinct keys.

use vstd::prelude::*;

verus! {

/// A map from strings to strings. Keys are distinct; entries keep the order
/// in which their keys were first inserted.
#[derive(Debug)]
pub struct StrMap {
    entries: Vec<(String, String)>,
}

/// The entries of a map as character sequences.
pub open spec fn entry_views(e: Seq<(String, String)>) -> Seq<(Seq<char>, Seq<char>)> {
    e.map_values(|p: (String, String)| (p.0@, p.1@))
}

/// The key-value map described by an entry list with distinct keys.
pub open spec fn entries_map(e: Seq<(Seq<char>, Seq<char>)>) -> Map<Seq<char>, Seq<char>> {
    Map::new(
        |k: Seq<char>| exists|i: int| 0 <= i < e.len() && e[i].0 == k,
        |k: Seq<char>| e[choose|i: int| 0 <= i < e.len() && e[i].0 == k].1,
    )
}

pub open spec fn distinct_keys(e: Seq<(Seq<char>, Seq<char>)>) -> bool {
    forall|i: int, j: int| 0 <= i < e.len() && 0 <= j < e.len() && i != j ==> e[i].0 != e[j].0
}

/// In a list with distinct keys, the entry at `i` gives the value of its key.
pub proof fn lemma_entries_map_at(e: Seq<(Seq<char>, Seq<char>)>, i: int)
    requires
        distinct_keys(e),
        0 <= i < e.len(),
    ensures
        entries_map(e).contains_key(e[i].0),
        entries_map(e)[e[i].0] == e[i].1,
{
    let k = e[i].0;
    assert(0 <= i < e.len() && e[i].0 == k);
    let j = choose|j: int| 0 <= j < e.len() && e[j].0 == k;
    assert(j == i);
}

impl View for StrMap {
    type V = Map<Seq<char>, Seq<char>>;

    open spec fn view(&self) -> Map<Seq<char>, Seq<char>> {
        entries_map(self.entries())
    }
}

impl StrMap {
    /// The entries, in order.
    pub closed spec fn entries(&self) -> Seq<(Seq<char>, Seq<char>)> {
        entry_views(self.entries@)
    }

    #[verifier::type_invariant]
    closed spec fn inv(&self) -> bool {
        distinct_keys(self.entries())
    }

    /// Creates an empty map.
    pub fn new() -> (m: Self)
        ensures
            m.entries() == Seq::<(Seq<char>, Seq<char>)>::empty(),
            m@ == Map::<Seq<char>, Seq<char>>::empty(),
    {
        let m = StrMap { entries: Vec::new() };
        assert(m.entries() =~= Seq::<(Seq<char>, Seq<char>)>::empty());
        assert(m@ =~= Map::<Seq<char>, Seq<char>>::empty());
        m
    }

    /// Number of entries.
    pub fn len(&self) -> (n: usize)
        ensures
            n == self.entries().len(),
    {
        self.entries.len()
    }

    /// Whether the map has no entries.
    pub fn is_empty(&self) -> (b: bool)
        ensures
            b == (self.entries().len() == 0),
            b == (self@ == Map::<Seq<char>, Seq<char>>::empty()),
    {
        let b = self.entries.len() == 0;
        if !b {
            proof {
                use_type_invariant(self);
                lemma_entries_map_at(self.entries(), 0);
                assert(self@.contains_key(self.entries()[0].0));
            }
        } else {
            assert(self@ =~= Map::<Seq<char>, Seq<char>>::empty());
        }
        b
    }

    /// The position of `key` among the entries.
    fn position(&self, key: &String) -> (r: Option<usize>)
        ensures
            match r {
                Some(i) => i < self.entries().len() && self.entries()[i as int].0 == key@,
                None => forall|i: int| 0 <= i < self.entries().len() ==> self.entries()[i].0 != key@,
            },
    {
        let mut i: usize = 0;
        while i < self.entries.len()
            invariant
                i <= self.entries@.len(),
                forall|j: int| 0 <= j < i ==> self.entries()[j].0 != key@,
            decreases self.entries@.len() - i,
        {
            if self.entries[i].0 == *key {
                return Some(i);
            }
            i = i + 1;
        }
        None
    }

    /// The value stored for `key`.
    pub fn get(&self, key: &str) -> (r: Option<&String>)
        ensures
            match r {
                Some(v) => self@.contains_key(key@) && self@[key@] == v@,
                None => !self@.contains_key(key@),
            },
    {
        proof {
            use_type_invariant(self);
        }
        let k = key.to_owned();
        match self.position(&k) {
            Some(i) => {
                proof {
                    lemma_entries_map_at(self.entries(), i as int);
                }
                Some(&self.entries[i].1)
            },
            None => None,
        }
    }

    /// Whether `key` has a value.
    pub fn contains_key(&self, key: &str) -> (b: bool)
        ensures
            b == self@.contains_key(key@),
    {
        self.get(key).is_some()
    }

    /// The entry at position `i`.
    pub fn entry_at(&self, i: usize) -> (r: (&String, &String))
        requires
            i < self.entries().len(),
        ensures
            r.0@ == self.entries()[i as int].0,
            r.1@ == self.entries()[i as int].1,
    {
        (&self.entries[i].0, &self.entries[i].1)
    }

    /// Sets the value of `key`, replacing any previous value. A new key is
    /// added at the end; an existing key keeps its position.
    pub fn insert(&mut self, key: String, value: String)
        ensures
            final(self)@ == old(self)@.insert(key@, value@),
            old(self)@.contains_key(key@) ==> final(self).entries().len() == old(self).entries().len(),
            !old(self)@.contains_key(key@) ==> final(self).entries() == old(self).entries().push((key@, value@)),
            forall|i: int| 0 <= i < old(self).entries().len() ==> final(self).entries()[i].0 == old(self).entries()[i].0,
            forall|i: int| 0 <= i < old(self).entries().len() && old(self).entries()[i].0 != key@ ==> final(self).entries()[i] == old(self).entries()[i],
    {
        proof {
            use_type_invariant(&*self);
        }
        let ghost old_e = self.entries();
        match self.position(&key) {
            Some(i) => {
                let ghost kv = key@;
                let mut e: Vec<(String, String)> = Vec::new();
                std::mem::swap(&mut e, &mut self.entries);
                let ghost vv = value@;
                e.set(i, (key, value));
                assert(entry_views(e@) =~= old_e.update(i as int, (kv, vv)));
                assert(distinct_keys(entry_views(e@)));
                self.entries = e;
                assert(self.entries() =~= old_e.update(i as int, (kv, value@)));
                proof {
                    assert(self@ =~= old(self)@.insert(kv, value@)) by {
                        assert forall|k: Seq<char>| #[trigger] self@.contains_key(k) implies old(self)@.insert(kv, value@).contains_key(k) by {
                            let j = choose|j: int| 0 <= j < self.entries().len() && self.entries()[j].0 == k;
                            if j != i {
                                assert(old_e[j].0 == k);
                            }
                        }
                        assert forall|k: Seq<char>|
                            #[trigger] old(self)@.insert(kv, value@).contains_key(k) implies self@.contains_key(k)
                            && self@[k] == old(self)@.insert(kv, value@)[k] by {
                            if k == kv {
                                lemma_entries_map_at(self.entries(), i as int);
                            } else {
                                let j = choose|j: int| 0 <= j < old_e.len() && old_e[j].0 == k;
                                assert(self.entries()[j].0 == k);
                                lemma_entries_map_at(self.entries(), j);
                                lemma_entries_map_at(old_e, j);
                            }
                        }
                    }
                }
            },
            None => {
                let ghost kv = key@;
                let mut e: Vec<(String, String)> = Vec::new();
                std::mem::swap(&mut e, &mut self.entries);
                let ghost vv = value@;
                e.push((key, value));
                assert(entry_views(e@) =~= old_e.push((kv, vv)));
                assert(distinct_keys(entry_views(e@)));
                self.entries = e;
                assert(self.entries() =~= old_e.push((kv, value@)));
                proof {
                    assert(self@ =~= old(self)@.insert(kv, value@)) by {
                        assert forall|k: Seq<char>| #[trigger] self@.contains_key(k) implies old(self)@.insert(kv, value@).contains_key(k) by {
                            let j = choose|j: int| 0 <= j < self.entries().len() && self.entries()[j].0 == k;
                            if j < old_e.len() {
                                assert(old_e[j].0 == k);
                            }
                        }
                        assert forall|k: Seq<char>|
                            #[trigger] old(self)@.insert(kv, value@).contains_key(k) implies self@.contains_key(k)
                            && self@[k] == old(self)@.insert(kv, value@)[k] by {
                            if k == kv {
                                lemma_entries_map_at(self.entries(), old_e.len() as int);
                            } else {
                                let j = choose|j: int| 0 <= j < old_e.len() && old_e[j].0 == k;
                                assert(self.entries()[j].0 == k);
                                lemma_entries_map_at(self.entries(), j);
                                lemma_entries_map_at(old_e, j);
                            }
                        }
                    }
                }
            },
        }
    }

    /// Removes `key`, returning its value.
    pub fn remove(&mut self, key: &str) -> (r: Option<String>)
        ensures
            final(self)@ == old(self)@.remove(key@),
            match r {
                Some(v) => old(self)@.contains_key(key@) && old(self)@[key@] == v@,
                None => !old(self)@.contains_key(key@),
            },
    {
        proof {
            use_type_invariant(&*self);
        }
        let ghost old_e = self.entries();
        let k = key.to_owned();
        match self.position(&k) {
            Some(i) => {
                proof {
                    lemma_entries_map_at(old_e, i as int);
                }
                let mut e: Vec<(String, String)> = Vec::new();
                std::mem::swap(&mut e, &mut self.entries);
                let (_, v) = e.remove(i);
                let ghost ne = entry_views(e@);
                assert(ne =~= old_e.remove(i as int));
                assert(distinct_keys(ne)) by {
                    assert forall|a: int, b: int|
                        0 <= a < ne.len() && 0 <= b < ne.len() && a != b
                        implies ne[a].0 != ne[b].0 by {
                        let a2 = if a < i { a } else { a + 1 };
                        let b2 = if b < i { b } else { b + 1 };
                        assert(ne[a] == old_e[a2]);
                        assert(ne[b] == old_e[b2]);
                    }
                }
                self.entries = e;
                assert(self.entries() =~= old_e.remove(i as int));
                proof {
                    assert(self@ =~= old(self)@.remove(key@)) by {
                        assert forall|k2: Seq<char>| #[trigger] self@.contains_key(k2) implies old(self)@.remove(key@).contains_key(k2) && self@[k2] == old(self)@.remove(key@)[k2] by {
                            let j = choose|j: int| 0 <= j < self.entries().len() && self.entries()[j].0 == k2;
                            let j2 = if j < i { j } else { j + 1 };
                            assert(old_e[j2] == self.entries()[j]);
                            lemma_entries_map_at(self.entries(), j);
                            lemma_entries_map_at(old_e, j2);
                        }
                        assert forall|k2: Seq<char>| #[trigger] old(self)@.remove(key@).contains_key(k2)
                            implies self@.contains_key(k2) by {
                            let j = choose|j: int| 0 <= j < old_e.len() && old_e[j].0 == k2;
                            assert(j != i);
                            let j2 = if j < i { j } else { j - 1 };
                            assert(self.entries()[j2] == old_e[j]);
                        }
                    }
                }
                Some(v)
            },
            None => {
                assert(self@ =~= old(self)@.remove(key@));
                None
            },
        }
    }

    /// A copy of this map with the same entries in the same order.
    pub fn duplicate(&self) -> (r: Self)
        ensures
            r.entries() == self.entries(),
            r@ == self@,
    {
        proof {
            use_type_invariant(self);
        }
        let mut e: Vec<(String, String)> = Vec::new();
        let mut i: usize = 0;
        while i < self.entries.len()
            invariant
                i <= self.entries@.len(),
                e@.len() == i,
                entry_views(e@) == self.entries().subrange(0, i as int),
            decreases self.entries@.len() - i,
        {
            let pair = &self.entries[i];
            let k = pair.0.clone();
            let v = pair.1.clone();
            assert(k@ == self.entries()[i as int].0);
            assert(v@ == self.entries()[i as int].1);
            let ghost before = e@;
            let ghost kv = (k@, v@);
            e.push((k, v));
            assert(e@ =~= before.push(e@[i as int]));
            assert(entry_views(e@) =~= entry_views(before).push(kv));
            assert(self.entries().subrange(0, i + 1) =~= self.entries().subrange(0, i as int).push(kv));
            i = i + 1;
        }
        assert(entry_views(e@) =~= self.entries());
        StrMap { entries: e }
    }

    /// Removes every entry.
    pub fn clear(&mut self)
        ensures
            final(self)@ == Map::<Seq<char>, Seq<char>>::empty(),
            final(self).entries().len() == 0,
    {
        self.entries = Vec::new();
        assert(self.entries() =~= Seq::<(Seq<char>, Seq<char>)>::empty());
        assert(self@ =~= Map::<Seq<char>, Seq<char>>::empty());
    }
}

} // verus!

verus! {

/// The characters of each string in a list.
pub open spec fn strings_view(v: Seq<String>) -> Seq<Seq<char>> {
    v.map_values(|s: String| s@)
}

pub open spec fn multi_entry_views(e: Seq<(String, Vec<String>)>) -> Seq<(Seq<char>, Seq<Seq<char>>)> {
    e.map_values(|p: (String, Vec<String>)| (p.0@, strings_view(p.1@)))
}

pub open spec fn multi_map(e: Seq<(Seq<char>, Seq<Seq<char>>)>) -> Map<Seq<char>, Seq<Seq<char>>> {
    Map::new(
        |k: Seq<char>| exists|i: int| 0 <= i < e.len() && e[i].0 == k,
        |k: Seq<char>| e[choose|i: int| 0 <= i < e.len() && e[i].0 == k].1,
    )
}

pub open spec fn multi_distinct(e: Seq<(Seq<char>, Seq<Seq<char>>)>) -> bool {
    forall|i: int, j: int| 0 <= i < e.len() && 0 <= j < e.len() && i != j ==> e[i].0 != e[j].0
}

pub proof fn lemma_multi_map_at(e: Seq<(Seq<char>, Seq<Seq<char>>)>, i: int)
    requires
        multi_distinct(e),
        0 <= i < e.len(),
    ensures
        multi_map(e).contains_key(e[i].0),
        multi_map(e)[e[i].0] == e[i].1,
{
    let k = e[i].0;
    assert(0 <= i < e.len() && e[i].0 == k);
    let j = choose|j: int| 0 <= j < e.len() && e[j].0 == k;
    assert(j == i);
}

/// Adds `v` to the values of `k`.
pub open spec fn multi_append(m: Map<Seq<char>, Seq<Seq<char>>>, k: Seq<char>, v: Seq<char>) -> Map<
    Seq<char>,
    Seq<Seq<char>>,
> {
    if m.contains_key(k) {
        m.insert(k, m[k].push(v))
    } else {
        m.insert(k, seq![v])
    }
}

/// A map from strings to lists of strings (several values per key). Keys are
/// distinct and keep the order of their first insertion.
#[derive(Debug)]
pub struct MultiMap {
    entries: Vec<(String, Vec<String>)>,
}

impl View for MultiMap {
    type V = Map<Seq<char>, Seq<Seq<char>>>;

    open spec fn view(&self) -> Map<Seq<char>, Seq<Seq<char>>> {
        multi_map(self.entries())
    }
}

impl MultiMap {
    pub closed spec fn entries(&self) -> Seq<(Seq<char>, Seq<Seq<char>>)> {
        multi_entry_views(self.entries@)
    }

    #[verifier::type_invariant]
    closed spec fn inv(&self) -> bool {
        multi_distinct(self.entries())
    }

    /// Creates an empty map.
    pub fn new() -> (m: Self)
        ensures
            m@ == Map::<Seq<char>, Seq<Seq<char>>>::empty(),
    {
        let m = MultiMap { entries: Vec::new() };
        assert(m.entries() =~= Seq::<(Seq<char>, Seq<Seq<char>>)>::empty());
        assert(m@ =~= Map::<Seq<char>, Seq<Seq<char>>>::empty());
        m
    }

    fn position(&self, key: &String) -> (r: Option<usize>)
        ensures
            match r {
                Some(i) => i < self.entries().len() && self.entries()[i as int].0 == key@,
                None => forall|i: int| 0 <= i < self.entries().len() ==> self.entries()[i].0 != key@,
            },
    {
        let mut i: usize = 0;
        while i < self.entries.len()
            invariant
                i <= self.entries@.len(),
                forall|j: int| 0 <= j < i ==> self.entries()[j].0 != key@,
            decreases self.entries@.len() - i,
        {
            if self.entries[i].0 == *key {
                return Some(i);
            }
            i = i + 1;
        }
        None
    }

    /// All values of `key`, in the order they were added.
    pub fn get(&self, key: &str) -> (r: Option<&Vec<String>>)
        ensures
            match r {
                Some(v) => self@.contains_key(key@) && self@[key@] == strings_view(v@),
                None => !self@.contains_key(key@),
            },
    {
        proof {
            use_type_invariant(self);
        }
        let k = key.to_owned();
        match self.position(&k) {
            Some(i) => {
                proof {
                    lemma_multi_map_at(self.entries(), i as int);
                }
                Some(&self.entries[i].1)
            },
            None => None,
        }
    }

    /// The first value of `key`.
    pub fn first(&self, key: &str) -> (r: Option<&String>)
        ensures
            match r {
                Some(v) => self@.contains_key(key@) && self@[key@].len() > 0 && self@[key@][0] == v@,
                None => !self@.contains_key(key@) || self@[key@].len() == 0,
            },
    {
        match self.get(key) {
            Some(vs) => {
                if vs.len() > 0 {
                    Some(&vs[0])
                } else {
                    None
                }
            },
            None => None,
        }
    }

    /// Adds `value` to the end of the values of `key`.
    pub fn append(&mut self, key: String, value: String)
        ensures
            final(self)@ == multi_append(old(self)@, key@, value@),
    {
        proof {
            use_type_invariant(&*self);
        }
        let ghost old_e = self.entries();
        let ghost kv = key@;
        let ghost vv = value@;
        match self.position(&key) {
            Some(i) => {
                let mut e: Vec<(String, Vec<String>)> = Vec::new();
                std::mem::swap(&mut e, &mut self.entries);
                let (k, mut vals) = e.remove(i);
                let ghost old_vals = strings_view(vals@);
                vals.push(value);
                assert(strings_view(vals@) =~= old_vals.push(vv));
                e.insert(i, (k, vals));
                let ghost ne = multi_entry_views(e@);
                assert(ne =~= old_e.update(i as int, (kv, old_e[i as int].1.push(vv))));
                assert(multi_distinct(ne));
                self.entries = e;
                proof {
                    lemma_multi_map_at(old_e, i as int);
                    assert(self@ =~= multi_append(old(self)@, kv, vv)) by {
                        assert forall|k2: Seq<char>| #[trigger] self@.contains_key(k2) implies multi_append(old(self)@, kv, vv).contains_key(k2) by {
                            let j = choose|j: int| 0 <= j < ne.len() && ne[j].0 == k2;
                            assert(old_e[j].0 == k2);
                        }
                        assert forall|k2: Seq<char>| #[trigger] multi_append(old(self)@, kv, vv).contains_key(k2)
                            implies self@.contains_key(k2) && self@[k2] == multi_append(old(self)@, kv, vv)[k2] by {
                            if k2 == kv {
                                lemma_multi_map_at(ne, i as int);
                            } else {
                                let j = choose|j: int| 0 <= j < old_e.len() && old_e[j].0 == k2;
                                assert(ne[j] == old_e[j]);
                                lemma_multi_map_at(ne, j);
                                lemma_multi_map_at(old_e, j);
                            }
                        }
                    }
                }
            },
            None => {
                let mut e: Vec<(String, Vec<String>)> = Vec::new();
                std::mem::swap(&mut e, &mut self.entries);
                let mut vals: Vec<String> = Vec::new();
                vals.push(value);
                assert(strings_view(vals@) =~= seq![vv]);
                e.push((key, vals));
                let ghost ne = multi_entry_views(e@);
                assert(ne =~= old_e.push((kv, seq![vv])));
                assert(multi_distinct(ne));
                self.entries = e;
                proof {
                    assert(self@ =~= multi_append(old(self)@, kv, vv)) by {
                        assert forall|k2: Seq<char>| #[trigger] self@.contains_key(k2) implies multi_append(old(self)@, kv, vv).contains_key(k2) by {
                            let j = choose|j: int| 0 <= j < ne.len() && ne[j].0 == k2;
                            if j < old_e.len() {
                                assert(old_e[j].0 == k2);
                            }
                        }
                        assert forall|k2: Seq<char>| #[trigger] multi_append(old(self)@, kv, vv).contains_key(k2)
                            implies self@.contains_key(k2) && self@[k2] == multi_append(old(self)@, kv, vv)[k2] by {
                            if k2 == kv {
                                lemma_multi_map_at(ne, old_e.len() as int);
                            } else {
                                let j = choose|j: int| 0 <= j < old_e.len() && old_e[j].0 == k2;
                                assert(ne[j] == old_e[j]);
                                lemma_multi_map_at(ne, j);
                                lemma_multi_map_at(old_e, j);
                            }
                        }
                    }
                }
            },
        }
    }
}

} // verus!

verus! {

pub open spec fn key_entry_views<V>(e: Seq<(String, V)>) -> Seq<(Seq<char>, V)> {
    e.map_values(|p: (String, V)| (p.0@, p.1))
}

pub open spec fn key_map<V>(e: Seq<(Seq<char>, V)>) -> Map<Seq<char>, V> {
    Map::new(
        |k: Seq<char>| exists|i: int| 0 <= i < e.len() && e[i].0 == k,
        |k: Seq<char>| e[choose|i: int| 0 <= i < e.len() && e[i].0 == k].1,
    )
}

pub open spec fn key_distinct<V>(e: Seq<(Seq<char>, V)>) -> bool {
    forall|i: int, j: int| 0 <= i < e.len() && 0 <= j < e.len() && i != j ==> e[i].0 != e[j].0
}

pub proof fn lemma_key_map_at<V>(e: Seq<(Seq<char>, V)>, i: int)
    requires
        key_distinct(e),
        0 <= i < e.len(),
    ensures
        key_map(e).contains_key(e[i].0),
        key_map(e)[e[i].0] == e[i].1,
{
    let k = e[i].0;
    assert(0 <= i < e.len() && e[i].0 == k);
    let j = choose|j: int| 0 <= j < e.len() && e[j].0 == k;
    assert(j == i);
}

/// A map from strings to values of any type. Keys are distinct and keep
/// the order of their first insertion.
#[derive(Debug)]
pub struct KeyMap<V> {
    entries: Vec<(String, V)>,
}

impl<V> View for KeyMap<V> {
    type V = Map<Seq<char>, V>;

    open spec fn view(&self) -> Map<Seq<char>, V> {
        key_map(self.entries())
    }
}

impl<V> KeyMap<V> {
    pub closed spec fn entries(&self) -> Seq<(Seq<char>, V)> {
        key_entry_views(self.entries@)
    }

    #[verifier::type_invariant]
    closed spec fn inv(&self) -> bool {
        key_distinct(self.entries())
    }

    /// Creates an empty map.
    pub fn new() -> (m: Self)
        ensures
            m@ == Map::<Seq<char>, V>::empty(),
            m.entries().len() == 0,
    {
        let m = KeyMap { entries: Vec::new() };
        assert(m.entries() =~= Seq::<(Seq<char>, V)>::empty());
        assert(m@ =~= Map::<Seq<char>, V>::empty());
        m
    }

    /// Number of entries.
    pub fn len(&self) -> (n: usize)
        ensures
            n == self.entries().len(),
    {
        self.entries.len()
    }

    /// The entries with distinct keys describe the map.
    pub fn entry_at(&self, i: usize) -> (r: (&String, &V))
        requires
            i < self.entries().len(),
        ensures
            r.0@ == self.entries()[i as int].0,
            *r.1 == self.entries()[i as int].1,
            self@.contains_key(r.0@),
            self@[r.0@] == *r.1,
    {
        proof {
            use_type_invariant(self);
            lemma_key_map_at(self.entries(), i as int);
        }
        (&self.entries[i].0, &self.entries[i].1)
    }

    fn position(&self, key: &String) -> (r: Option<usize>)
        ensures
            match r {
                Some(i) => i < self.entries().len() && self.entries()[i as int].0 == key@,
                None => forall|i: int| 0 <= i < self.entries().len() ==> self.entries()[i].0 != key@,
            },
    {
        let mut i: usize = 0;
        while i < self.entries.len()
            invariant
                i <= self.entries@.len(),
                forall|j: int| 0 <= j < i ==> self.entries()[j].0 != key@,
            decreases self.entries@.len() - i,
        {
            if self.entries[i].0 == *key {
                return Some(i);
            }
            i = i + 1;
        }
        None
    }

    /// The value stored for `key`.
    pub fn get(&self, key: &str) -> (r: Option<&V>)
        ensures
            match r {
                Some(v) => self@.contains_key(key@) && self@[key@] == *v,
                None => !self@.contains_key(key@),
            },
    {
        proof {
            use_type_invariant(self);
        }
        let k = key.to_owned();
        match self.position(&k) {
            Some(i) => {
                proof {
                    lemma_key_map_at(self.entries(), i as int);
                }
                Some(&self.entries[i].1)
            },
            None => None,
        }
    }

    /// Sets the value of `key`.
    pub fn insert(&mut self, key: String, value: V)
        ensures
            final(self)@ == old(self)@.insert(key@, value),
    {
        proof {
            use_type_invariant(&*self);
        }
        let ghost old_e = self.entries();
        let ghost kv = key@;
        let ghost vv = value;
        match self.position(&key) {
            Some(i) => {
                let mut e: Vec<(String, V)> = Vec::new();
                std::mem::swap(&mut e, &mut self.entries);
                e.set(i, (key, value));
                assert(key_entry_views(e@) =~= old_e.update(i as int, (kv, vv)));
                assert(key_distinct(key_entry_views(e@)));
                self.entries = e;
                proof {
                    let ne = self.entries();
                    assert(self@ =~= old(self)@.insert(kv, vv)) by {
                        assert forall|k: Seq<char>| #[trigger] self@.contains_key(k) implies old(self)@.insert(kv, vv).contains_key(k) by {
                            let j = choose|j: int| 0 <= j < ne.len() && ne[j].0 == k;
                            if j != i {
                                assert(old_e[j].0 == k);
                            }
                        }
                        assert forall|k: Seq<char>| #[trigger] old(self)@.insert(kv, vv).contains_key(k)
                            implies self@.contains_key(k) && self@[k] == old(self)@.insert(kv, vv)[k] by {
                            if k == kv {
                                lemma_key_map_at(ne, i as int);
                            } else {
                                let j = choose|j: int| 0 <= j < old_e.len() && old_e[j].0 == k;
                                assert(ne[j] == old_e[j]);
                                lemma_key_map_at(ne, j);
                                lemma_key_map_at(old_e, j);
                            }
                        }
                    }
                }
            },
            None => {
                let mut e: Vec<(String, V)> = Vec::new();
                std::mem::swap(&mut e, &mut self.entries);
                e.push((key, value));
                assert(key_entry_views(e@) =~= old_e.push((kv, vv)));
                assert(key_distinct(key_entry_views(e@)));
                self.entries = e;
                proof {
                    let ne = self.entries();
                    assert(self@ =~= old(self)@.insert(kv, vv)) by {
                        assert forall|k: Seq<char>| #[trigger] self@.contains_key(k) implies old(self)@.insert(kv, vv).contains_key(k) by {
                            let j = choose|j: int| 0 <= j < ne.len() && ne[j].0 == k;
                            if j < old_e.len() {
                                assert(old_e[j].0 == k);
                            }
                        }
                        assert forall|k: Seq<char>| #[trigger] old(self)@.insert(kv, vv).contains_key(k)
                            implies self@.contains_key(k) && self@[k] == old(self)@.insert(kv, vv)[k] by {
                            if k == kv {
                                lemma_key_map_at(ne, old_e.len() as int);
                            } else {
                                let j = choose|j: int| 0 <= j < old_e.len() && old_e[j].0 == k;
                                assert(ne[j] == old_e[j]);
                                lemma_key_map_at(ne, j);
                                lemma_key_map_at(old_e, j);
                            }
                        }
                    }
                }
            },
        }
    }

    /// Removes `key`, returning its value.
    pub fn remove(&mut self, key: &str) -> (r: Option<V>)
        ensures
            final(self)@ == old(self)@.remove(key@),
            match r {
                Some(v) => old(self)@.contains_key(key@) && old(self)@[key@] == v,
                None => !old(self)@.contains_key(key@),
            },
    {
        proof {
            use_type_invariant(&*self);
        }
        let ghost old_e = self.entries();
        let k = key.to_owned();
        match self.position(&k) {
            Some(i) => {
                proof {
                    lemma_key_map_at(old_e, i as int);
                }
                let mut e: Vec<(String, V)> = Vec::new();
                std::mem::swap(&mut e, &mut self.entries);
                let (_, v) = e.remove(i);
                let ghost ne = key_entry_views(e@);
                assert(ne =~= old_e.remove(i as int));
                assert(key_distinct(ne)) by {
                    assert forall|a: int, b: int| 0 <= a < ne.len() && 0 <= b < ne.len() && a != b implies ne[a].0 != ne[b].0 by {
                        let a2 = if a < i { a } else { a + 1 };
                        let b2 = if b < i { b } else { b + 1 };
                        assert(ne[a] == old_e[a2]);
                        assert(ne[b] == old_e[b2]);
                    }
                }
                self.entries = e;
                proof {
                    assert(self@ =~= old(self)@.remove(key@)) by {
                        assert forall|k2: Seq<char>| #[trigger] self@.contains_key(k2) implies old(self)@.remove(key@).contains_key(k2) && self@[k2] == old(self)@.remove(key@)[k2] by {
                            let j = choose|j: int| 0 <= j < ne.len() && ne[j].0 == k2;
                            let j2 = if j < i { j } else { j + 1 };
                            assert(old_e[j2] == ne[j]);
                            lemma_key_map_at(ne, j);
                            lemma_key_map_at(old_e, j2);
                        }
                        assert forall|k2: Seq<char>| #[trigger] old(self)@.remove(key@).contains_key(k2) implies self@.contains_key(k2) by {
                            let j = choose|j: int| 0 <= j < old_e.len() && old_e[j].0 == k2;
                            assert(j != i);
                            let j2 = if j < i { j } else { j - 1 };
                            assert(ne[j2] == old_e[j]);
                        }
                    }
                }
                Some(v)
            },
            None => {
                assert(self@ =~= old(self)@.remove(key@));
                None
            },
        }
    }

    /// Keeps only the entries whose decision in `keep` (one per entry, in
    /// order) is true.
    pub fn retain_where(&mut self, keep: &Vec<bool>)
        requires
            keep@.len() == old(self).entries().len(),
        ensures
            final(self)@ == kept_map(old(self).entries(), keep@, keep@.len() as int),
    {
        proof {
            use_type_invariant(&*self);
        }
        let ghost old_e = self.entries();
        let mut e: Vec<(String, V)> = Vec::new();
        std::mem::swap(&mut e, &mut self.entries);
        let n = e.len();
        let mut rev: Vec<(String, V)> = Vec::new();
        while e.len() > 0
            invariant
                key_entry_views(e@) + key_entry_views(rev@).reverse() == old_e,
            decreases e@.len(),
        {
            let ghost before_e = key_entry_views(e@);
            let ghost before_r = key_entry_views(rev@);
            let x = e.pop().unwrap();
            rev.push(x);
            assert(key_entry_views(e@) =~= before_e.drop_last());
            assert(key_entry_views(rev@) =~= before_r.push(before_e.last()));
            assert(key_entry_views(e@) + key_entry_views(rev@).reverse() =~= old_e);
        }
        assert(key_entry_views(rev@).reverse() =~= old_e);
        let mut out: KeyMap<V> = KeyMap::new();
        let mut i: usize = 0;
        while i < n
            invariant
                i <= n == old_e.len() == keep@.len(),
                key_entry_views(rev@).reverse() == old_e.subrange(i as int, n as int),
                out@ == kept_map(old_e, keep@, i as int),
            decreases n - i,
        {
            let ghost before_r = key_entry_views(rev@);
            assert(before_r.len() > 0) by {
                assert(old_e.subrange(i as int, n as int).len() > 0);
            }
            let x = rev.pop().unwrap();
            assert(key_entry_views(rev@) =~= before_r.drop_last());
            assert(before_r.last() == old_e[i as int]) by {
                assert(before_r.reverse()[0] == before_r.last());
                assert(old_e.subrange(i as int, n as int)[0] == old_e[i as int]);
            }
            assert(key_entry_views(rev@).reverse() =~= old_e.subrange(i + 1, n as int)) by {
                assert forall|t: int| 0 <= t < n - i - 1 implies key_entry_views(rev@).reverse()[t]
                    == old_e.subrange(i + 1, n as int)[t] by {
                    assert(before_r.reverse()[t + 1] == old_e.subrange(i as int, n as int)[t + 1]);
                }
            }
            if keep[i] {
                let (k, v) = x;
                out.insert(k, v);
            }
            i = i + 1;
        }
        proof {
            use_type_invariant(&out);
        }
        self.entries = out.entries;
    }
}

/// The entries among the first `i` whose decision is true, as a map.
pub open spec fn kept_map<V>(e: Seq<(Seq<char>, V)>, keep: Seq<bool>, i: int) -> Map<Seq<char>, V>
    decreases i,
{
    if i <= 0 {
        Map::empty()
    } else if keep[i - 1] {
        kept_map(e, keep, i - 1).insert(e[i - 1].0, e[i - 1].1)
    } else {
        kept_map(e, keep, i - 1)
    }
}

/// With distinct keys, an entry is in the kept map exactly when one of the
/// first `i` entries has that key and is kept, with that entry's value.
pub proof fn lemma_kept_map<V>(e: Seq<(Seq<char>, V)>, keep: Seq<bool>, i: int, t: int)
    requires
        key_distinct(e),
        0 <= i <= e.len() == keep.len(),
        0 <= t < e.len(),
    ensures
        kept_map(e, keep, i).contains_key(e[t].0) <==> (t < i && keep[t]),
        t < i && keep[t] ==> kept_map(e, keep, i)[e[t].0] == e[t].1,
    decreases i,
{
    if i > 0 {
        lemma_kept_map(e, keep, i - 1, t);
    }
}

/// Keys not among the entries are never kept.
pub proof fn lemma_kept_map_keys<V>(e: Seq<(Seq<char>, V)>, keep: Seq<bool>, i: int, k: Seq<char>)
    requires
        0 <= i <= e.len() == keep.len(),
        kept_map(e, keep, i).contains_key(k),
    ensures
        exists|t: int| 0 <= t < i && e[t].0 == k,
    decreases i,
{
    if i > 0 {
        if keep[i - 1] && e[i - 1].0 == k {
        } else {
            lemma_kept_map_keys(e, keep, i - 1, k);
        }
    }
}

} // verus!

verus! {

impl<V> KeyMap<V> {
    /// The entries of a key map have distinct keys.
    pub fn keys_distinct(&self)
        ensures
            key_distinct(self.entries()),
    {
        proof {
            use_type_invariant(self);
        }
    }
}

} // verus!

verus! {

/// How many entries have a value satisfying `p`.
pub open spec fn count_where<V>(e: Seq<(Seq<char>, V)>, p: spec_fn(V) -> bool) -> nat
    decreases e.len(),
{
    if e.len() == 0 {
        0
    } else {
        count_where(e.drop_last(), p) + if p(e.last().1) {
            1nat
        } else {
            0nat
        }
    }
}

/// The keys of a map whose value satisfies `p`.
pub open spec fn keys_where<V>(m: Map<Seq<char>, V>, p: spec_fn(V) -> bool) -> Set<Seq<char>> {
    Set::new(|k: Seq<char>| m.contains_key(k) && p(m[k]))
}

/// Adding an entry with a new key at the end inserts it into the map.
pub proof fn lemma_key_map_push<V>(e: Seq<(Seq<char>, V)>)
    requires
        key_distinct(e),
        e.len() > 0,
    ensures
        key_distinct(e.drop_last()),
        !key_map(e.drop_last()).contains_key(e.last().0),
        key_map(e) == key_map(e.drop_last()).insert(e.last().0, e.last().1),
{
    let d = e.drop_last();
    let n = e.len() - 1;
    assert(key_distinct(d)) by {
        assert forall|i: int, j: int| 0 <= i < d.len() && 0 <= j < d.len() && i != j implies d[i].0 != d[j].0 by {
            assert(d[i] == e[i] && d[j] == e[j]);
        }
    }
    if key_map(d).contains_key(e.last().0) {
        let j = choose|j: int| 0 <= j < d.len() && d[j].0 == e.last().0;
        assert(e[j].0 == e[n].0);
    }
    assert(key_map(e) =~= key_map(d).insert(e.last().0, e.last().1)) by {
        assert forall|k: Seq<char>| #[trigger] key_map(e).contains_key(k) implies key_map(d).insert(
            e.last().0,
            e.last().1,
        ).contains_key(k) by {
            let j = choose|j: int| 0 <= j < e.len() && e[j].0 == k;
            if j < n {
                assert(d[j].0 == k);
            }
        }
        assert forall|k: Seq<char>| #[trigger] key_map(d).insert(e.last().0, e.last().1).contains_key(k)
            implies key_map(e).contains_key(k) && key_map(e)[k] == key_map(d).insert(
            e.last().0,
            e.last().1,
        )[k] by {
            if k == e.last().0 {
                lemma_key_map_at(e, n);
            } else {
                let j = choose|j: int| 0 <= j < d.len() && d[j].0 == k;
                assert(e[j] == d[j]);
                lemma_key_map_at(e, j);
                lemma_key_map_at(d, j);
            }
        }
    }
}

/// With distinct keys, the keys whose value satisfies `p` are finite and
/// as many as the entries whose value satisfies it.
pub proof fn lemma_count_where<V>(e: Seq<(Seq<char>, V)>, p: spec_fn(V) -> bool)
    requires
        key_distinct(e),
    ensures
        keys_where(key_map(e), p).finite(),
        keys_where(key_map(e), p).len() == count_where(e, p),
    decreases e.len(),
{
    if e.len() == 0 {
        assert(keys_where(key_map(e), p) =~= Set::<Seq<char>>::empty());
    } else {
        let d = e.drop_last();
        lemma_key_map_push(e);
        lemma_count_where(d, p);
        let (k0, v0) = e.last();
        let s = keys_where(key_map(d), p);
        assert(!s.contains(k0));
        if p(v0) {
            assert(keys_where(key_map(e), p) =~= s.insert(k0));
        } else {
            assert(keys_where(key_map(e), p) =~= s);
        }
    }
}

} // verus!

verus! {

impl StrMap {
    /// The entries of a map have distinct keys.
    pub fn keys_distinct(&self)
        ensures
            distinct_keys(self.entries()),
    {
        proof {
            use_type_invariant(self);
        }
    }
}

/// Adding an entry with a new key at the end inserts it into the map.
pub proof fn lemma_entries_map_push(e: Seq<(Seq<char>, Seq<char>)>)
    requires
        distinct_keys(e),
        e.len() > 0,
    ensures
        distinct_keys(e.drop_last()),
        entries_map(e) == entries_map(e.drop_last()).insert(e.last().0, e.last().1),
{
    assert(entries_map(e) =~= key_map(e));
    assert(entries_map(e.drop_last()) =~= key_map(e.drop_last()));
    lemma_key_map_push(e);
}

} // verus!
