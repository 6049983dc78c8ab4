use vstd::prelude::*;
use crate::table::KeyedTable;

verus! {

/// The set of account identifiers chosen to take part in the current
/// sign-in.
pub struct UidSet {
    table: KeyedTable<()>,
}

impl View for UidSet {
    type V = Set<Seq<char>>;

    closed spec fn view(&self) -> Set<Seq<char>> {
        Set::new(|k: Seq<char>| crate::table::has_key(self.table@, k))
    }
}

/// The identifiers listed in `uids`, as a set.
pub open spec fn uid_list_set(uids: Seq<String>) -> Set<Seq<char>> {
    Set::new(|k: Seq<char>| exists|i: int| 0 <= i < uids.len() && #[trigger] uids[i]@ == k)
}

impl UidSet {
    /// An empty set.
    pub fn new() -> (s: Self)
        ensures
            s@ == Set::<Seq<char>>::empty(),
    {
        let s = UidSet { table: KeyedTable::new() };
        assert(s@ =~= Set::<Seq<char>>::empty());
        s
    }

    /// Whether `uid` is in the set.
    pub fn contains(&self, uid: &str) -> (b: bool)
        ensures
            b == self@.contains(uid@),
    {
        self.table.contains_key(uid)
    }

    /// Adds `uid`; `true` when it was not in the set before.
    pub fn insert(&mut self, uid: String) -> (added: bool)
        ensures
            added == !old(self)@.contains(uid@),
            final(self)@ == old(self)@.insert(uid@),
    {
        let ghost s = self.table@;
        let ghost k = uid@;
        let prev = self.table.insert(uid, ());
        proof {
            assert forall|k2: Seq<char>| #[trigger] crate::table::has_key(self.table@, k2) == (crate::table::has_key(s, k2)
                || k2 == k) by {
                crate::table::lemma_insert_lookup(s, k, (), k2);
            }
            assert(self@ =~= old(self)@.insert(k));
        }
        prev.is_none()
    }

    /// Removes `uid`; `true` when it was in the set.
    pub fn remove(&mut self, uid: &str) -> (removed: bool)
        ensures
            removed == old(self)@.contains(uid@),
            final(self)@ == old(self)@.remove(uid@),
    {
        let ghost s = self.table@;
        let ghost k = uid@;
        let prev = self.table.remove(uid);
        proof {
            assert forall|k2: Seq<char>| #[trigger] crate::table::has_key(self.table@, k2) == (crate::table::has_key(s, k2)
                && k2 != k) by {
                crate::table::lemma_remove_lookup(s, k, k2);
            }
            assert(self@ =~= old(self)@.remove(k));
        }
        prev.is_some()
    }

    /// Adds every identifier of `uids`.
    pub fn extend(&mut self, uids: Vec<String>)
        ensures
            final(self)@ == old(self)@.union(uid_list_set(uids@)),
    {
        let ghost start = self@;
        let mut i: usize = 0;
        while i < uids.len()
            invariant
                0 <= i <= uids.len(),
                self@ == start.union(uid_list_set(uids@.take(i as int))),
            decreases uids.len() - i,
        {
            let ghost before = self@;
            self.insert(uids[i].clone());
            proof {
                assert(uid_list_set(uids@.take(i + 1)) =~= uid_list_set(uids@.take(i as int)).insert(
                    uids@[i as int]@,
                )) by {
                    let t0 = uids@.take(i as int);
                    let t1 = uids@.take(i + 1);
                    assert forall|k: Seq<char>| #[trigger] uid_list_set(t1).contains(k) implies uid_list_set(
                        t0,
                    ).insert(uids@[i as int]@).contains(k) by {
                        let j = choose|j: int| 0 <= j < t1.len() && #[trigger] t1[j]@ == k;
                        if j < i {
                            assert(t0[j] == t1[j]);
                        }
                    }
                    assert forall|k: Seq<char>| #[trigger] uid_list_set(t0).insert(
                        uids@[i as int]@,
                    ).contains(k) implies uid_list_set(t1).contains(k) by {
                        if k == uids@[i as int]@ {
                            assert(t1[i as int] == uids@[i as int]);
                        } else {
                            let j = choose|j: int| 0 <= j < t0.len() && #[trigger] t0[j]@ == k;
                            assert(t0[j] == t1[j]);
                        }
                    }
                }
                assert(self@ =~= start.union(uid_list_set(uids@.take(i + 1))));
            }
            i = i + 1;
        }
        assert(uids@.take(uids.len() as int) =~= uids@);
    }

    /// Empties the set.
    pub fn clear(&mut self)
        ensures
            final(self)@ == Set::<Seq<char>>::empty(),
    {
        self.table.clear();
        assert(self@ =~= Set::<Seq<char>>::empty());
    }

    /// Positions, in increasing order, of the entries of `uids` that are in
    /// the set.
    pub fn select(&self, uids: &Vec<String>) -> (picked: Vec<usize>)
        ensures
            forall|j: int| 0 <= j < picked.len() ==> #[trigger] picked@[j] < uids.len(),
            forall|j: int, l: int| 0 <= j < l < picked.len() ==> picked@[j] < picked@[l],
            forall|m: int|
                0 <= m < uids.len() ==> (self@.contains(#[trigger] uids@[m]@) <==> picked@.contains(
                    m as usize,
                )),
    {
        let mut picked: Vec<usize> = Vec::new();
        let mut i: usize = 0;
        while i < uids.len()
            invariant
                0 <= i <= uids.len(),
                forall|j: int| 0 <= j < picked.len() ==> #[trigger] picked@[j] < i,
                forall|j: int, l: int| 0 <= j < l < picked.len() ==> picked@[j] < picked@[l],
                forall|m: int|
                    0 <= m < i ==> (self@.contains(#[trigger] uids@[m]@) <==> picked@.contains(
                        m as usize,
                    )),
            decreases uids.len() - i,
        {
            let ghost before = picked@;
            if self.contains(uids[i].as_str()) {
                picked.push(i);
                assert(picked@[before.len() as int] == i);
            }
            assert forall|m: int| 0 <= m < i + 1 implies (self@.contains(#[trigger] uids@[m]@)
                <==> picked@.contains(m as usize)) by {
                if m < i {
                    if before.contains(m as usize) {
                        let j = choose|j: int| 0 <= j < before.len() && before[j] == m as usize;
                        assert(picked@[j] == m as usize);
                    }
                    if picked@.contains(m as usize) {
                        let j = choose|j: int| 0 <= j < picked.len() && picked@[j] == m as usize;
                        if j < before.len() {
                            assert(before[j] == picked@[j]);
                        }
                    }
                } else {
                    if picked@.contains(m as usize) {
                        let j = choose|j: int| 0 <= j < picked.len() && picked@[j] == m as usize;
                        if j < before.len() {
                            assert(before[j] < i);
                        }
                    }
                }
            }
            i = i + 1;
        }
        picked
    }
}

/// Adds `uid` to the sign-in set; `true` when it was not there before.
pub fn add_uid(uid: String, state: &mut UidSet) -> (added: bool)
    ensures
        added == !old(state)@.contains(uid@),
        final(state)@ == old(state)@.insert(uid@),
{
    state.insert(uid)
}

/// Takes `uid` out of the sign-in set; `true` when it was there.
pub fn remove_uid(uid: String, state: &mut UidSet) -> (removed: bool)
    ensures
        removed == old(state)@.contains(uid@),
        final(state)@ == old(state)@.remove(uid@),
{
    state.remove(uid.as_str())
}

/// Whether `uid` is in the sign-in set.
pub fn has_uid(uid: String, state: &UidSet) -> (b: bool)
    ensures
        b == state@.contains(uid@),
{
    state.contains(uid.as_str())
}

/// Adds every identifier of `uid_vec` to the sign-in set.
pub fn extent_uid_set(uid_vec: Vec<String>, state: &mut UidSet)
    ensures
        final(state)@ == old(state)@.union(uid_list_set(uid_vec@)),
{
    state.extend(uid_vec)
}

/// Empties the sign-in set.
pub fn clear_uid_set(state: &mut UidSet)
    ensures
        final(state)@ == Set::<Seq<char>>::empty(),
{
    state.clear()
}

/// Law: once an identifier is added it is in the set, and adding it again
/// reports that nothing was added and leaves the set as it is.
pub proof fn lemma_add_then_has(s: Set<Seq<char>>, uid: Seq<char>)
    ensures
        s.insert(uid).contains(uid),
        s.insert(uid).insert(uid) == s.insert(uid),
{
    assert(s.insert(uid).insert(uid) =~= s.insert(uid));
}

/// Law: once an identifier is removed it is not in the set, and other
/// identifiers are unaffected by adding or removing it.
pub proof fn lemma_remove_then_not_has(s: Set<Seq<char>>, uid: Seq<char>, other: Seq<char>)
    ensures
        !s.remove(uid).contains(uid),
        other != uid ==> (s.remove(uid).contains(other) == s.contains(other)),
        other != uid ==> (s.insert(uid).contains(other) == s.contains(other)),
        !s.contains(uid) ==> s.insert(uid).remove(uid) == s,
{
    if !s.contains(uid) {
        assert(s.insert(uid).remove(uid) =~= s);
    }
}

} // verus!
