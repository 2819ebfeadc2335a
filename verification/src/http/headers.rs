use vstd::prelude::*;

verus! {

/// No key occurs twice among the entries.
pub open spec fn keys_distinct(es: Seq<(Seq<char>, Seq<char>)>) -> bool {
    forall|i: int, j: int| 0 <= i < es.len() && 0 <= j < es.len() && i != j ==> es[i].0 != es[j].0
}

/// `k` is the key of some entry.
pub open spec fn has_key(es: Seq<(Seq<char>, Seq<char>)>, k: Seq<char>) -> bool {
    exists|i: int| 0 <= i < es.len() && es[i].0 == k
}

/// The position of the entry whose key is `k`.
pub open spec fn key_index(es: Seq<(Seq<char>, Seq<char>)>, k: Seq<char>) -> Option<int> {
    if has_key(es, k) {
        Some(choose|i: int| 0 <= i < es.len() && es[i].0 == k)
    } else {
        None
    }
}

/// The entries read as a map from key to value.
pub open spec fn headers_map(es: Seq<(Seq<char>, Seq<char>)>) -> Map<Seq<char>, Seq<char>> {
    Map::new(|k: Seq<char>| has_key(es, k), |k: Seq<char>| es[key_index(es, k)->0].1)
}

/// The entries after setting `k` to `v`: an entry with key `k` keeps its place and takes
/// the new value; otherwise the pair is added at the end.
pub open spec fn insert_entry(es: Seq<(Seq<char>, Seq<char>)>, k: Seq<char>, v: Seq<char>) -> Seq<
    (Seq<char>, Seq<char>),
> {
    match key_index(es, k) {
        Some(i) => es.update(i, (k, v)),
        None => es.push((k, v)),
    }
}

/// The position that `key_index` picks is the one entry with that key.
pub proof fn lemma_key_index(es: Seq<(Seq<char>, Seq<char>)>, k: Seq<char>, i: int)
    requires
        keys_distinct(es),
        0 <= i < es.len(),
        es[i].0 == k,
    ensures
        key_index(es, k) == Some(i),
{
}

/// Setting a header keeps the keys distinct, and the map it denotes is the old map with
/// `k` bound to `v`: a read of `k` gives `v`, and every other key reads as before.
pub proof fn lemma_insert_entry(es: Seq<(Seq<char>, Seq<char>)>, k: Seq<char>, v: Seq<char>)
    requires
        keys_distinct(es),
    ensures
        keys_distinct(insert_entry(es, k, v)),
        headers_map(insert_entry(es, k, v)) == headers_map(es).insert(k, v),
{
    let es2 = insert_entry(es, k, v);
    let m2 = headers_map(es2);
    let m1 = headers_map(es).insert(k, v);
    assert forall|q: Seq<char>| #[trigger] m2.contains_key(q) == m1.contains_key(q) by {
        if has_key(es2, q) {
            let j = choose|j: int| 0 <= j < es2.len() && es2[j].0 == q;
            if q != k {
                assert(es[j].0 == q);
            }
        }
        if q != k && has_key(es, q) {
            let j = choose|j: int| 0 <= j < es.len() && es[j].0 == q;
            assert(es2[j].0 == q);
        }
        if q == k {
            match key_index(es, k) {
                Some(i) => assert(es2[i].0 == k),
                None => assert(es2[es.len() as int].0 == k),
            }
        }
    }
    assert forall|q: Seq<char>| #[trigger] m2.contains_key(q) implies m2[q] == m1[q] by {
        let j = choose|j: int| 0 <= j < es2.len() && es2[j].0 == q;
        assert(key_index(es2, q) == Some(j));
        if q != k {
            assert(es[j].0 == q);
            assert(key_index(es, q) == Some(j));
        }
    }
    assert(m2 =~= m1);
}

/// A header collection: each key at most once, kept in the order the keys were first set.
#[derive(Debug)]
pub struct Headers {
    entries: Vec<(String, String)>,
}

impl View for Headers {
    type V = Seq<(Seq<char>, Seq<char>)>;

    closed spec fn view(&self) -> Seq<(Seq<char>, Seq<char>)> {
        self.entries@.map_values(|e: (String, String)| (e.0@, e.1@))
    }
}

impl Headers {
    #[verifier::type_invariant]
    closed spec fn wf(self) -> bool {
        keys_distinct(self@)
    }

    /// The map that the entries denote.
    pub open spec fn as_map(&self) -> Map<Seq<char>, Seq<char>> {
        headers_map(self@)
    }

    /// An empty collection.
    pub fn new() -> (h: Headers)
        ensures
            h@ == Seq::<(Seq<char>, Seq<char>)>::empty(),
            keys_distinct(h@),
    {
        let h = Headers { entries: Vec::new() };
        assert(h@ =~= Seq::<(Seq<char>, Seq<char>)>::empty());
        h
    }

    /// The number of entries; every collection holds each key once, so it reads as a map.
    pub fn len(&self) -> (n: usize)
        ensures
            n == self@.len(),
            keys_distinct(self@),
    {
        proof {
            use_type_invariant(self);
        }
        self.entries.len()
    }

    /// The key and value of the entry at position `i`.
    pub fn entry(&self, i: usize) -> (kv: (&String, &String))
        requires
            i < self@.len(),
        ensures
            kv.0@ == self@[i as int].0,
            kv.1@ == self@[i as int].1,
            keys_distinct(self@),
    {
        proof {
            use_type_invariant(self);
        }
        let e = &self.entries[i];
        (&e.0, &e.1)
    }

    /// The position of the entry with key `key`.
    fn position(&self, key: &String) -> (r: Option<usize>)
        ensures
            match r {
                Some(i) => key_index(self@, key@) == Some(i as int),
                None => !has_key(self@, key@),
            },
    {
        proof {
            use_type_invariant(self);
        }
        let mut i: usize = 0;
        while i < self.entries.len()
            invariant
                i <= self@.len(),
                self@.len() == self.entries@.len(),
                keys_distinct(self@),
                forall|j: int| 0 <= j < i ==> self@[j].0 != key@,
            decreases self.entries.len() - i,
        {
            if self.entries[i].0 == *key {
                proof {
                    lemma_key_index(self@, key@, i as int);
                }
                return Some(i);
            }
            i = i + 1;
        }
        None
    }

    /// Sets `key` to `value`, replacing the value of an entry with that key in place.
    pub fn insert(&mut self, key: String, value: String)
        ensures
            final(self)@ == insert_entry(old(self)@, key@, value@),
            keys_distinct(old(self)@),
            keys_distinct(final(self)@),
    {
        proof {
            use_type_invariant(&*self);
            lemma_insert_entry(self@, key@, value@);
        }
        let ghost es = insert_entry(self@, key@, value@);
        let pos = self.position(&key);
        let mut entries: Vec<(String, String)> = Vec::new();
        std::mem::swap(&mut entries, &mut self.entries);
        match pos {
            Some(i) => {
                entries.set(i, (key, value));
            },
            None => {
                entries.push((key, value));
            },
        }
        assert(entries@.map_values(|e: (String, String)| (e.0@, e.1@)) =~= es);
        self.entries = entries;
    }

    /// The value of `key`, if some entry has that key.
    pub fn get(&self, key: &str) -> (r: Option<&String>)
        ensures
            match r {
                Some(v) => self.as_map().contains_key(key@) && self.as_map()[key@] == v@,
                None => !self.as_map().contains_key(key@),
            },
            keys_distinct(self@),
    {
        proof {
            use_type_invariant(self);
        }
        let k = String::from_str(key);
        match self.position(&k) {
            Some(i) => Some(&self.entries[i].1),
            None => None,
        }
    }
}

} // verus!
