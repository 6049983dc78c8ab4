use vstd::prelude::*;

verus! {

/// One live lecture as listed by the course schedule service.
pub struct Live {
    pub place: String,
    pub id: i32,
    pub week_day: u32,
    pub jie: i32,
}

impl Live {
    /// The lecture's identifier.
    pub fn get_id(&self) -> (id: i32)
        ensures
            id == self.id,
    {
        self.id
    }

    /// Day of the week on which the lecture takes place (1 is Monday).
    pub fn get_week_day(&self) -> (d: u32)
        ensures
            d == self.week_day,
    {
        self.week_day
    }

    /// Index of the class period ("jie") at which the lecture starts.
    pub fn get_jie(&self) -> (j: i32)
        ensures
            j == self.jie,
    {
        self.jie
    }
}

} // verus!

verus! {

/// `l` is held on `week_day` and starts at or after period `jie`.
pub open spec fn is_candidate(l: Live, week_day: u32, jie: i32) -> bool {
    l.week_day == week_day && l.jie >= jie
}

/// Position `k` of `lives` holds the lecture chosen for (`week_day`, `jie`):
/// a candidate with the earliest starting period, and the first such one
/// in list order.
pub open spec fn is_earliest(lives: Seq<Live>, week_day: u32, jie: i32, k: int) -> bool {
    &&& 0 <= k < lives.len()
    &&& is_candidate(lives[k], week_day, jie)
    &&& forall|m: int|
        0 <= m < lives.len() && is_candidate(#[trigger] lives[m], week_day, jie) ==> lives[k].jie
            <= lives[m].jie
    &&& forall|m: int|
        0 <= m < k && is_candidate(#[trigger] lives[m], week_day, jie) ==> lives[m].jie
            > lives[k].jie
}

/// Law: at most one position of a list is the chosen lecture.
pub proof fn lemma_earliest_unique(lives: Seq<Live>, week_day: u32, jie: i32, k1: int, k2: int)
    requires
        is_earliest(lives, week_day, jie, k1),
        is_earliest(lives, week_day, jie, k2),
    ensures
        k1 == k2,
{
    if k1 < k2 {
        assert(is_candidate(lives[k1], week_day, jie));
    } else if k2 < k1 {
        assert(is_candidate(lives[k2], week_day, jie));
    }
}

/// A copy of `l`.
pub fn copy_live(l: &Live) -> (r: Live)
    ensures
        r == *l,
{
    Live { place: l.place.clone(), id: l.id, week_day: l.week_day, jie: l.jie }
}

/// The lecture held on `week_day` that starts first at or after period
/// `jie`; among lectures starting in the same period the one listed first
/// wins. `None` when no lecture of that day starts at or after `jie`.
pub fn select_live_by_time(lives: &Vec<Live>, week_day: u32, jie: i32) -> (r: Option<Live>)
    ensures
        r is None <==> forall|m: int|
            0 <= m < lives@.len() ==> !is_candidate(#[trigger] lives@[m], week_day, jie),
        r matches Some(l) ==> exists|k: int|
            is_earliest(lives@, week_day, jie, k) && l == #[trigger] lives@[k],
{
    let mut best: Option<usize> = None;
    let mut i: usize = 0;
    while i < lives.len()
        invariant
            0 <= i <= lives.len(),
            best is None <==> forall|m: int|
                0 <= m < i ==> !is_candidate(#[trigger] lives@[m], week_day, jie),
            best matches Some(b) ==> is_earliest(lives@.take(i as int), week_day, jie, b as int),
        decreases lives.len() - i,
    {
        let l = &lives[i];
        let ghost old_best = best;
        if l.week_day == week_day && l.jie >= jie {
            match best {
                None => {
                    best = Some(i);
                },
                Some(b) => {
                    if l.jie < lives[b].jie {
                        best = Some(i);
                    }
                },
            }
        }
        proof {
            let t = lives@.take(i as int);
            let t1 = lives@.take(i + 1);
            assert forall|m: int| 0 <= m < i implies #[trigger] t1[m] == t[m] && t[m] == lives@[m] by {
            }
            assert(t1[i as int] == lives@[i as int]);
            if let Some(b) = best {
                assert forall|m: int|
                    0 <= m < t1.len() && is_candidate(#[trigger] t1[m], week_day, jie) implies t1[b as int].jie
                    <= t1[m].jie by {
                    if m < i {
                        assert(t[m] == t1[m]);
                    }
                }
                assert forall|m: int|
                    0 <= m < b && is_candidate(#[trigger] t1[m], week_day, jie) implies t1[m].jie
                    > t1[b as int].jie by {
                    assert(t[m] == t1[m]);
                }
            }
        }
        i = i + 1;
    }
    assert(lives@.take(lives.len() as int) =~= lives@);
    match best {
        None => None,
        Some(b) => Some(copy_live(&lives[b])),
    }
}

} // verus!

verus! {

/// The (place, lecture identifier) entries of `lives`, in order.
pub open spec fn place_entries(lives: Seq<Live>) -> Seq<(String, i32)> {
    lives.map_values(|l: Live| (l.place, l.id))
}

/// The lecture identifier of each place where one of `lives` is held; when
/// a place occurs more than once, the last listed lecture there wins.
pub fn lives_to_place_ids(lives: Vec<Live>) -> (m: crate::table::KeyedTable<i32>)
    ensures
        m@ == crate::account::insert_all(Seq::empty(), place_entries(lives@)),
        crate::table::keys_distinct(m@),
        forall|k: int|
            0 <= k < lives@.len() ==> crate::table::has_key(m@, #[trigger] lives@[k].place@),
        forall|k: int|
            0 <= k < lives@.len() && (forall|j: int|
                k < j < lives@.len() ==> lives@[j].place@ != lives@[k].place@) ==> crate::table::lookup(
                m@,
                #[trigger] lives@[k].place@,
            ) == Some(lives@[k].id),
        forall|x: Seq<char>|
            (forall|k: int| 0 <= k < lives@.len() ==> #[trigger] lives@[k].place@ != x)
                ==> !crate::table::has_key(m@, x),
{
    let ghost all = lives@;
    let total: usize = lives.len();
    let mut rest = lives;
    let mut m: crate::table::KeyedTable<i32> = crate::table::KeyedTable::new();
    let mut done: usize = 0;
    while rest.len() > 0
        invariant
            done <= all.len(),
            all.len() == total,
            rest@ == all.skip(done as int),
            m@ == crate::account::insert_all(Seq::empty(), place_entries(all.take(done as int))),
        decreases rest.len(),
    {
        assert(rest@.len() == all.len() - done);
        let live = rest.remove(0);
        proof {
            assert(place_entries(all.take(done + 1)).drop_last() =~= place_entries(
                all.take(done as int),
            ));
            assert(all[done as int] == live);
            assert(place_entries(all.take(done + 1)).last() == (live.place, live.id));
        }
        m.insert(live.place, live.id);
        proof {
            assert(rest@ =~= all.skip(done + 1));
        }
        done = done + 1;
    }
    assert(all.take(all.len() as int) =~= all);
    proof {
        let e = all.map_values(|l: Live| (l.place, l.id));
        assert(place_entries(all) == e);
        assert forall|k: int| 0 <= k < e.len() implies #[trigger] e[k] == (all[k].place, all[k].id) by {}
        crate::account::lemma_insert_all(Seq::<(Seq<char>, i32)>::empty(), e);
        assert forall|k: int| 0 <= k < all.len() implies crate::table::has_key(m@, #[trigger] all[k].place@) by {
            assert(e[k].0@ == all[k].place@);
        }
        assert forall|k: int|
            0 <= k < all.len() && (forall|j: int| k < j < all.len() ==> all[j].place@ != all[k].place@)
                implies crate::table::lookup(m@, #[trigger] all[k].place@) == Some(all[k].id) by {
            assert(e[k].0@ == all[k].place@);
            assert forall|j: int| k < j < e.len() implies e[j].0@ != e[k].0@ by {
                assert(e[j].0@ == all[j].place@);
            }
        }
        assert forall|x: Seq<char>|
            (forall|k: int| 0 <= k < all.len() ==> #[trigger] all[k].place@ != x) implies !crate::table::has_key(
            m@,
            x,
        ) by {
            assert forall|k: int| 0 <= k < e.len() implies #[trigger] e[k].0@ != x by {
                assert(e[k].0@ == all[k].place@);
            }
            assert(crate::table::lookup(m@, x) == crate::table::lookup(Seq::<(Seq<char>, i32)>::empty(), x));
        }
    }
    m
}

/// Some lecture of `lives` has identifier `id`.
pub open spec fn id_listed(lives: Seq<Live>, id: i32) -> bool {
    exists|k: int| 0 <= k < lives.len() && #[trigger] lives[k].id == id
}

/// The identifiers of `lives`, each kept at its first appearance.
pub open spec fn first_ids(lives: Seq<Live>) -> Seq<i32>
    decreases lives.len(),
{
    if lives.len() == 0 {
        Seq::empty()
    } else {
        let p = first_ids(lives.drop_last());
        if p.contains(lives.last().id) {
            p
        } else {
            p.push(lives.last().id)
        }
    }
}

/// The distinct lecture identifiers among `lives`, each once, in order of
/// first appearance.
pub fn distinct_live_ids(lives: &Vec<Live>) -> (ids: Vec<i32>)
    ensures
        ids@ == first_ids(lives@),
        forall|j: int, l: int| 0 <= j < l < ids.len() ==> ids@[j] != ids@[l],
        forall|j: int| 0 <= j < ids.len() ==> id_listed(lives@, #[trigger] ids@[j]),
        forall|k: int| 0 <= k < lives.len() ==> ids@.contains(#[trigger] lives@[k].id),
{
    let mut ids: Vec<i32> = Vec::new();
    let mut i: usize = 0;
    while i < lives.len()
        invariant
            0 <= i <= lives.len(),
            ids@ == first_ids(lives@.take(i as int)),
            forall|j: int, l: int| 0 <= j < l < ids.len() ==> ids@[j] != ids@[l],
            forall|j: int| 0 <= j < ids.len() ==> id_listed(lives@, #[trigger] ids@[j]),
            forall|k: int| 0 <= k < i ==> ids@.contains(#[trigger] lives@[k].id),
        decreases lives.len() - i,
    {
        let id = lives[i].id;
        let ghost before = ids@;
        let mut seen = false;
        let mut j: usize = 0;
        while j < ids.len()
            invariant
                0 <= j <= ids.len(),
                ids@ == before,
                seen <==> exists|k: int| 0 <= k < j && ids@[k] == id,
            decreases ids.len() - j,
        {
            if ids[j] == id {
                seen = true;
            }
            j = j + 1;
        }
        proof {
            assert(lives@.take(i + 1).drop_last() =~= lives@.take(i as int));
            assert(lives@.take(i + 1).last() == lives@[i as int]);
            if before.contains(id) {
                let k = choose|k: int| 0 <= k < before.len() && before[k] == id;
                assert(ids@[k] == id);
            }
        }
        if !seen {
            ids.push(id);
            assert(ids@[before.len() as int] == id);
            assert(lives@[i as int].id == id);
            assert(id_listed(lives@, id));
        } else {
            proof {
                let k = choose|k: int| 0 <= k < before.len() && before[k] == id;
                assert(ids@[k] == id);
            }
        }
        assert forall|k: int| 0 <= k < i + 1 implies ids@.contains(#[trigger] lives@[k].id) by {
            if k < i {
                let x = lives@[k].id;
                let w = choose|w: int| 0 <= w < before.len() && before[w] == x;
                assert(ids@[w] == x);
            }
        }
        i = i + 1;
    }
    assert(lives@.take(lives.len() as int) =~= lives@);
    ids
}

} // verus!

verus! {

/// Position of the first entry of `room_ids` equal to `id`, if any.
pub open spec fn room_for_id(room_ids: Seq<i32>, id: i32) -> Option<int> {
    if exists|r: int| 0 <= r < room_ids.len() && room_ids[r] == id {
        Some(choose|r: int| 0 <= r < room_ids.len() && room_ids[r] == id && forall|q: int| 0 <= q < r ==> room_ids[q] != id)
    } else {
        None
    }
}

/// Joins the current lecture of each session with the classroom found for
/// it: for each (session position, lecture identifier) of `session_lives`
/// whose lecture has a classroom in `room_ids`, in order, the pair (session
/// position, position of that classroom); sessions whose lecture has no
/// classroom are left out.
pub fn pair_sessions_with_rooms(session_lives: &Vec<(usize, i32)>, room_ids: &Vec<i32>) -> (pairs: Vec<(usize, usize)>)
    ensures
        pairs@ == joined(session_lives@, room_ids@),
        exists|idx: Seq<int>| pairing_from(session_lives@, room_ids@, pairs@, idx),
{
    let mut pairs: Vec<(usize, usize)> = Vec::new();
    let mut i: usize = 0;
    let ghost mut idx: Seq<int> = Seq::empty();
    while i < session_lives.len()
        invariant
            0 <= i <= session_lives.len(),
            pairs@ == joined(session_lives@.take(i as int), room_ids@),
            idx.len() == pairs.len(),
            forall|j: int| 0 <= j < idx.len() ==> 0 <= #[trigger] idx[j] < i,
            forall|j: int, l: int| 0 <= j < l < idx.len() ==> idx[j] < idx[l],
            forall|j: int|
                0 <= j < idx.len() ==> #[trigger] pairs@[j].0 == session_lives@[idx[j]].0
                    && is_first_room(room_ids@, session_lives@[idx[j]].1, pairs@[j].1 as int),
            forall|k: int|
                0 <= k < i && has_room(room_ids@, #[trigger] session_lives@[k].1) ==> idx.contains(k),
        decreases session_lives.len() - i,
    {
        let (session, id) = session_lives[i];
        let mut r: usize = 0;
        let mut found: Option<usize> = None;
        while r < room_ids.len()
            invariant
                0 <= r <= room_ids.len(),
                found is None ==> forall|q: int| 0 <= q < r ==> room_ids@[q] != id,
                found matches Some(f) ==> f < room_ids.len() && room_ids@[f as int] == id && forall|q: int|
                    0 <= q < f ==> room_ids@[q] != id,
            decreases room_ids.len() - r,
        {
            if found.is_none() && room_ids[r] == id {
                found = Some(r);
            }
            r = r + 1;
        }
        proof {
            assert(session_lives@.take(i + 1).drop_last() =~= session_lives@.take(i as int));
            assert(session_lives@.take(i + 1).last() == session_lives@[i as int]);
            match found {
                Some(f) => {
                    let w = choose|w: int| 0 <= w < room_ids@.len() && room_ids@[w] == id && forall|q: int| 0 <= q < w ==> room_ids@[q] != id;
                    assert(room_ids@[f as int] == id);
                    if w < f {
                        assert(room_ids@[w] != id);
                    } else if f < w {
                        assert(room_ids@[f as int] != id);
                    }
                    assert(room_for_id(room_ids@, id) == Some(f as int));
                },
                None => {
                    assert(room_for_id(room_ids@, id) is None);
                },
            }
        }
        let ghost before = idx;
        match found {
            Some(f) => {
                pairs.push((session, f));
                proof {
                    idx = idx.push(i as int);
                    assert(is_first_room(room_ids@, id, f as int));
                }
            },
            None => {},
        }
        proof {
            assert forall|k: int|
                0 <= k < i + 1 && has_room(room_ids@, #[trigger] session_lives@[k].1) implies idx.contains(k) by {
                if k < i {
                    let w = choose|w: int| 0 <= w < before.len() && before[w] == k;
                    assert(idx[w] == k);
                } else {
                    let r0 = choose|r0: int| 0 <= r0 < room_ids@.len() && room_ids@[r0] == session_lives@[k].1;
                    assert(found is Some);
                    assert(idx[idx.len() - 1] == k);
                }
            }
        }
        i = i + 1;
    }
    assert(session_lives@.take(session_lives.len() as int) =~= session_lives@);
    assert(pairing_from(session_lives@, room_ids@, pairs@, idx));
    pairs
}

/// Position `r` holds the first entry of `room_ids` equal to `id`.
pub open spec fn is_first_room(room_ids: Seq<i32>, id: i32, r: int) -> bool {
    0 <= r < room_ids.len() && room_ids[r] == id && forall|q: int| 0 <= q < r ==> room_ids[q] != id
}

/// Some entry of `room_ids` equals `id`.
pub open spec fn has_room(room_ids: Seq<i32>, id: i32) -> bool {
    exists|r: int| 0 <= r < room_ids.len() && room_ids[r] == id
}

/// `pairs` takes, in order (the positions `idx` into `session_lives`,
/// increasing), exactly the entries of `session_lives` whose lecture has a
/// classroom, each as (its own session position, the first position of its
/// lecture in `room_ids`).
pub open spec fn pairing_from(
    session_lives: Seq<(usize, i32)>,
    room_ids: Seq<i32>,
    pairs: Seq<(usize, usize)>,
    idx: Seq<int>,
) -> bool {
    &&& idx.len() == pairs.len()
    &&& forall|j: int| 0 <= j < idx.len() ==> 0 <= #[trigger] idx[j] < session_lives.len()
    &&& forall|j: int, l: int| 0 <= j < l < idx.len() ==> idx[j] < idx[l]
    &&& forall|j: int|
        0 <= j < idx.len() ==> #[trigger] pairs[j].0 == session_lives[idx[j]].0 && is_first_room(
            room_ids,
            session_lives[idx[j]].1,
            pairs[j].1 as int,
        )
    &&& forall|k: int|
        0 <= k < session_lives.len() && has_room(room_ids, #[trigger] session_lives[k].1)
            ==> idx.contains(k)
}

/// An entry of `room_ids` equal to `id` has a first one.
proof fn lemma_first_room(room_ids: Seq<i32>, id: i32)
    requires
        has_room(room_ids, id),
    ensures
        exists|r: int| is_first_room(room_ids, id, r),
    decreases room_ids.len(),
{
    let d = room_ids.drop_last();
    let n = room_ids.len() - 1;
    if has_room(d, id) {
        lemma_first_room(d, id);
        let r = choose|r: int| is_first_room(d, id, r);
        assert forall|q: int| 0 <= q <= r implies d[q] == room_ids[q] by {}
        assert(is_first_room(room_ids, id, r));
    } else {
        let w = choose|w: int| 0 <= w < room_ids.len() && room_ids[w] == id;
        if w < n {
            assert(d[w] == room_ids[w]);
        }
        assert forall|q: int| 0 <= q < n implies room_ids[q] != id by {
            assert(d[q] == room_ids[q]);
        }
        assert(is_first_room(room_ids, id, n));
    }
}

/// Law: the pairs joined for `session_lives` are, in order, exactly its
/// entries whose lecture has a classroom in `room_ids`, each as its own
/// session position and the first position of that classroom; an entry
/// whose lecture has none gives nothing.
pub proof fn lemma_joined_pairing(session_lives: Seq<(usize, i32)>, room_ids: Seq<i32>)
    requires
        room_ids.len() <= usize::MAX,
    ensures
        exists|idx: Seq<int>| pairing_from(session_lives, room_ids, joined(session_lives, room_ids), idx),
    decreases session_lives.len(),
{
    if session_lives.len() == 0 {
        assert(pairing_from(session_lives, room_ids, joined(session_lives, room_ids), Seq::<int>::empty()));
    } else {
        let d = session_lives.drop_last();
        let n = session_lives.len() - 1;
        lemma_joined_pairing(d, room_ids);
        let i0 = choose|i0: Seq<int>| pairing_from(d, room_ids, joined(d, room_ids), i0);
        let p = joined(d, room_ids);
        let id = session_lives[n].1;
        assert forall|k: int| 0 <= k < n implies d[k] == session_lives[k] by {}
        if has_room(room_ids, id) {
            lemma_first_room(room_ids, id);
            let r = choose|r: int|
                0 <= r < room_ids.len() && room_ids[r] == id && forall|q: int| 0 <= q < r ==> room_ids[q] != id;
            assert(room_for_id(room_ids, id) == Some(r));
            let out = joined(session_lives, room_ids);
            assert(out == p.push((session_lives[n].0, r as usize)));
            let idx = i0.push(n);
            assert forall|j: int| 0 <= j < idx.len() implies #[trigger] out[j].0 == session_lives[idx[j]].0
                && is_first_room(room_ids, session_lives[idx[j]].1, out[j].1 as int) by {
                if j < i0.len() {
                    assert(out[j] == p[j]);
                    assert(idx[j] == i0[j]);
                }
            }
            assert forall|k: int|
                0 <= k < session_lives.len() && has_room(room_ids, #[trigger] session_lives[k].1) implies idx.contains(k) by {
                if k < n {
                    assert(has_room(room_ids, d[k].1));
                    let w = choose|w: int| 0 <= w < i0.len() && i0[w] == k;
                    assert(idx[w] == k);
                } else {
                    assert(idx[idx.len() - 1] == k);
                }
            }
            assert(pairing_from(session_lives, room_ids, out, idx));
        } else {
            assert(room_for_id(room_ids, id) is None);
            assert forall|k: int|
                0 <= k < session_lives.len() && has_room(room_ids, #[trigger] session_lives[k].1) implies i0.contains(k) by {
                assert(k < n);
                assert(has_room(room_ids, d[k].1));
            }
            assert(pairing_from(session_lives, room_ids, joined(session_lives, room_ids), i0));
        }
    }
}

/// The pairs that `pair_sessions_with_rooms` produces.
pub open spec fn joined(session_lives: Seq<(usize, i32)>, room_ids: Seq<i32>) -> Seq<(usize, usize)>
    decreases session_lives.len(),
{
    if session_lives.len() == 0 {
        Seq::empty()
    } else {
        let p = joined(session_lives.drop_last(), room_ids);
        match room_for_id(room_ids, session_lives.last().1) {
            Some(r) => p.push((session_lives.last().0, r as usize)),
            None => p,
        }
    }
}

} // verus!
