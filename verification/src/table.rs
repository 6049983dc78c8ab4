use vstd::prelude::*;

verus! {

// ---------------------------------------------------------------------
// Model: a table is the sequence of its (key, value) entries in insertion
// order, no key occurring twice.
// ---------------------------------------------------------------------

/// No key occurs twice among the entries.
pub open spec fn keys_distinct<V>(s: Seq<(Seq<char>, V)>) -> bool {
    forall|i: int, j: int|
        0 <= i < s.len() && 0 <= j < s.len() && i != j ==> #[trigger] s[i].0 != #[trigger] s[j].0
}

/// Some entry has key `k`.
pub open spec fn has_key<V>(s: Seq<(Seq<char>, V)>, k: Seq<char>) -> bool {
    exists|i: int| 0 <= i < s.len() && #[trigger] s[i].0 == k
}

/// Position of the entry with key `k` (meaningful when `has_key`).
pub open spec fn key_index<V>(s: Seq<(Seq<char>, V)>, k: Seq<char>) -> int {
    choose|i: int| 0 <= i < s.len() && #[trigger] s[i].0 == k
}

/// The value stored under `k`, if any.
pub open spec fn lookup<V>(s: Seq<(Seq<char>, V)>, k: Seq<char>) -> Option<V> {
    if has_key(s, k) {
        Some(s[key_index(s, k)].1)
    } else {
        None
    }
}

/// The entries after storing `v` under `k`: an existing entry keeps its
/// place and gets the new value, a new key is appended.
pub open spec fn insert_entry<V>(s: Seq<(Seq<char>, V)>, k: Seq<char>, v: V) -> Seq<(Seq<char>, V)> {
    if has_key(s, k) {
        s.update(key_index(s, k), (k, v))
    } else {
        s.push((k, v))
    }
}

/// The entries after dropping the one with key `k`, the others keeping
/// their order.
pub open spec fn remove_entry<V>(s: Seq<(Seq<char>, V)>, k: Seq<char>) -> Seq<(Seq<char>, V)> {
    if has_key(s, k) {
        s.remove(key_index(s, k))
    } else {
        s
    }
}

/// In a table without repeated keys, the entry at `i` is the one found
/// for its key.
pub proof fn lemma_key_index<V>(s: Seq<(Seq<char>, V)>, i: int)
    requires
        keys_distinct(s),
        0 <= i < s.len(),
    ensures
        has_key(s, s[i].0),
        key_index(s, s[i].0) == i,
        lookup(s, s[i].0) == Some(s[i].1),
{
    assert(s[i].0 == s[i].0);
    let j = key_index(s, s[i].0);
    assert(0 <= j < s.len() && s[j].0 == s[i].0);
}

/// Law: storing keeps keys distinct; afterwards the key reads back the
/// stored value and every other key reads back what it read before.
pub proof fn lemma_insert_lookup<V>(s: Seq<(Seq<char>, V)>, k: Seq<char>, v: V, k2: Seq<char>)
    requires
        keys_distinct(s),
    ensures
        keys_distinct(insert_entry(s, k, v)),
        lookup(insert_entry(s, k, v), k) == Some(v),
        k2 != k ==> lookup(insert_entry(s, k, v), k2) == lookup(s, k2),
        insert_entry(s, k, v).len() == if has_key(s, k) {
            s.len()
        } else {
            s.len() + 1
        },
{
    let t = insert_entry(s, k, v);
    if has_key(s, k) {
        let i = key_index(s, k);
        assert forall|a: int, b: int|
            0 <= a < t.len() && 0 <= b < t.len() && a != b implies #[trigger] t[a].0
            != #[trigger] t[b].0 by {
            if a != i && b != i {
                assert(t[a] == s[a] && t[b] == s[b]);
            } else if a == i {
                assert(t[b] == s[b]);
                assert(s[i].0 == k);
            } else {
                assert(t[a] == s[a]);
                assert(s[i].0 == k);
            }
        }
        lemma_key_index(t, i);
        if k2 != k {
            if has_key(s, k2) {
                let j = key_index(s, k2);
                lemma_key_index(s, j);
                assert(t[j] == s[j]);
                lemma_key_index(t, j);
            } else {
                if has_key(t, k2) {
                    let j = key_index(t, k2);
                    assert(t[j] == s[j]);
                }
            }
        }
    } else {
        assert forall|a: int, b: int|
            0 <= a < t.len() && 0 <= b < t.len() && a != b implies #[trigger] t[a].0
            != #[trigger] t[b].0 by {
            if a < s.len() && b < s.len() {
                assert(t[a] == s[a] && t[b] == s[b]);
            } else if a == s.len() {
                assert(t[b] == s[b]);
            } else {
                assert(t[a] == s[a]);
            }
        }
        lemma_key_index(t, s.len() as int);
        if k2 != k {
            if has_key(s, k2) {
                let j = key_index(s, k2);
                lemma_key_index(s, j);
                assert(t[j] == s[j]);
                lemma_key_index(t, j);
            } else {
                if has_key(t, k2) {
                    let j = key_index(t, k2);
                    assert(t[j] == s[j]);
                }
            }
        }
    }
}

/// Law: dropping a key keeps keys distinct; afterwards the key reads
/// nothing and every other key reads back what it read before.
pub proof fn lemma_remove_lookup<V>(s: Seq<(Seq<char>, V)>, k: Seq<char>, k2: Seq<char>)
    requires
        keys_distinct(s),
    ensures
        keys_distinct(remove_entry(s, k)),
        lookup(remove_entry(s, k), k) == None::<V>,
        k2 != k ==> lookup(remove_entry(s, k), k2) == lookup(s, k2),
        remove_entry(s, k).len() == if has_key(s, k) {
            s.len() - 1
        } else {
            s.len() as int
        },
{
    let t = remove_entry(s, k);
    if has_key(s, k) {
        let i = key_index(s, k);
        assert(0 <= i < s.len() && s[i].0 == k);
        assert forall|a: int| 0 <= a < t.len() implies #[trigger] t[a] == if a < i {
            s[a]
        } else {
            s[a + 1]
        } by {}
        assert forall|a: int, b: int|
            0 <= a < t.len() && 0 <= b < t.len() && a != b implies #[trigger] t[a].0
            != #[trigger] t[b].0 by {
            let sa = if a < i {
                a
            } else {
                a + 1
            };
            let sb = if b < i {
                b
            } else {
                b + 1
            };
            assert(t[a] == s[sa] && t[b] == s[sb]);
        }
        if has_key(t, k) {
            let j = key_index(t, k);
            let sj = if j < i {
                j
            } else {
                j + 1
            };
            assert(t[j] == s[sj]);
        }
        if k2 != k {
            if has_key(s, k2) {
                let j = key_index(s, k2);
                lemma_key_index(s, j);
                assert(j != i);
                let tj = if j < i {
                    j
                } else {
                    j - 1
                };
                assert(t[tj] == s[j]);
                lemma_key_index(t, tj);
            } else {
                if has_key(t, k2) {
                    let j = key_index(t, k2);
                    let sj = if j < i {
                        j
                    } else {
                        j + 1
                    };
                    assert(t[j] == s[sj]);
                }
            }
        }
    }
}

// ---------------------------------------------------------------------
// The table itself.
// ---------------------------------------------------------------------

/// A table of values keyed by text, kept in insertion order, with no key
/// stored twice (the behaviour of a string-keyed hash map, with a fixed
/// order of its entries).
pub struct KeyedTable<V> {
    entries: Vec<(String, V)>,
}

impl<V> View for KeyedTable<V> {
    type V = Seq<(Seq<char>, V)>;

    closed spec fn view(&self) -> Seq<(Seq<char>, V)> {
        self.entries@.map_values(|e: (String, V)| (e.0@, e.1))
    }
}

impl<V> KeyedTable<V> {
    #[verifier::type_invariant]
    closed spec fn wf(self) -> bool {
        keys_distinct(self@)
    }

    /// An empty table.
    pub fn new() -> (t: Self)
        ensures
            t@ == Seq::<(Seq<char>, V)>::empty(),
    {
        let t = KeyedTable { entries: Vec::new() };
        assert(t@ =~= Seq::<(Seq<char>, V)>::empty());
        t
    }

    /// Number of entries.
    pub fn len(&self) -> (n: usize)
        ensures
            n == self@.len(),
            keys_distinct(self@),
    {
        proof {
            use_type_invariant(self);
        }
        self.entries.len()
    }

    /// Position of the entry with key `key`, if any.
    pub fn find(&self, key: &str) -> (r: Option<usize>)
        ensures
            r is None <==> !has_key(self@, key@),
            r matches Some(i) ==> i < self@.len() && self@[i as int].0 == key@ && i == key_index(
                self@,
                key@,
            ),
    {
        proof {
            use_type_invariant(self);
        }
        let wanted: String = key.to_owned();
        let mut i: usize = 0;
        while i < self.entries.len()
            invariant
                0 <= i <= self.entries.len(),
                wanted@ == key@,
                keys_distinct(self@),
                self@.len() == self.entries.len(),
                forall|m: int| 0 <= m < i ==> #[trigger] self@[m].0 != key@,
            decreases self.entries.len() - i,
        {
            if self.entries[i].0 == wanted {
                assert(self@[i as int].0 == key@);
                proof {
                    lemma_key_index(self@, i as int);
                }
                return Some(i);
            }
            i = i + 1;
        }
        None
    }

    /// Whether some entry has key `key`.
    pub fn contains_key(&self, key: &str) -> (b: bool)
        ensures
            b == has_key(self@, key@),
    {
        self.find(key).is_some()
    }

    /// The value stored under `key`, if any.
    pub fn get(&self, key: &str) -> (r: Option<&V>)
        ensures
            r matches Some(v) ==> lookup(self@, key@) == Some(*v),
            r is None ==> lookup(self@, key@) is None,
    {
        match self.find(key) {
            Some(i) => Some(&self.entries[i].1),
            None => None,
        }
    }

    /// The key of entry `i`.
    pub fn key_at(&self, i: usize) -> (k: &str)
        requires
            i < self@.len(),
        ensures
            k@ == self@[i as int].0,
    {
        self.entries[i].0.as_str()
    }

    /// The value of entry `i`.
    pub fn value_at(&self, i: usize) -> (v: &V)
        requires
            i < self@.len(),
        ensures
            *v == self@[i as int].1,
    {
        &self.entries[i].1
    }

    /// Stores `value` under `key` and hands back the value it replaces.
    pub fn insert(&mut self, key: String, value: V) -> (old_value: Option<V>)
        ensures
            final(self)@ == insert_entry(old(self)@, key@, value),
            keys_distinct(old(self)@),
            keys_distinct(final(self)@),
            old_value == lookup(old(self)@, key@),
    {
        proof {
            use_type_invariant(&*self);
        }
        let ghost s = self@;
        let found = self.find(key.as_str());
        let mut entries: Vec<(String, V)> = Vec::new();
        std::mem::swap(&mut entries, &mut self.entries);
        assert(entries@.map_values(|e: (String, V)| (e.0@, e.1)) == s);
        let ghost k = key@;
        let result = match found {
            Some(i) => {
                let old_entry = entries.remove(i);
                entries.insert(i, (key, value));
                proof {
                    lemma_key_index(s, i as int);
                }
                Some(old_entry.1)
            },
            None => {
                entries.push((key, value));
                None
            },
        };
        assert(entries@.map_values(|e: (String, V)| (e.0@, e.1)) =~= insert_entry(s, k, value));
        proof {
            lemma_insert_lookup(s, k, value, k);
        }
        self.entries = entries;
        result
    }

    /// Drops the entry with key `key` and hands back its value.
    pub fn remove(&mut self, key: &str) -> (old_value: Option<V>)
        ensures
            final(self)@ == remove_entry(old(self)@, key@),
            keys_distinct(old(self)@),
            keys_distinct(final(self)@),
            old_value == lookup(old(self)@, key@),
    {
        proof {
            use_type_invariant(&*self);
        }
        let ghost s = self@;
        match self.find(key) {
            Some(i) => {
                let mut entries: Vec<(String, V)> = Vec::new();
                std::mem::swap(&mut entries, &mut self.entries);
                assert(entries@.map_values(|e: (String, V)| (e.0@, e.1)) == s);
                let old_entry = entries.remove(i);
                assert(entries@.map_values(|e: (String, V)| (e.0@, e.1)) =~= remove_entry(
                    s,
                    key@,
                ));
                proof {
                    lemma_key_index(s, i as int);
                    lemma_remove_lookup(s, key@, key@);
                }
                self.entries = entries;
                Some(old_entry.1)
            },
            None => None,
        }
    }

    /// Drops every entry.
    pub fn clear(&mut self)
        ensures
            final(self)@ == Seq::<(Seq<char>, V)>::empty(),
    {
        self.entries = Vec::new();
        assert(self@ =~= Seq::<(Seq<char>, V)>::empty());
    }
}

} // verus!
