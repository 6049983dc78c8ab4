use vstd::prelude::*;
use crate::table::KeyedTable;

verus! {

/// What the application shows of a logged-in account.
pub struct AccountPair {
    pub uid: String,
    pub name: String,
    pub avatar: String,
}

/// The plain facts the application reads from a login session: the
/// account identifier, the student's name and the avatar address.
pub struct SessionInfo {
    pub uid: String,
    pub stu_name: String,
    pub avatar: String,
}

/// A logged-in account: what is shown of it, and the session `S` used to
/// talk to the service.
pub struct AccountEntry<S> {
    pub info: SessionInfo,
    pub session: S,
}

impl AccountPair {
    /// The account identifier.
    pub fn get_uid(&self) -> (uid: &str)
        ensures
            uid@ == self.uid@,
    {
        self.uid.as_str()
    }

    /// An account pair from its three parts.
    pub fn new(uid: String, name: String, avatar: String) -> (p: Self)
        ensures
            p.uid == uid,
            p.name == name,
            p.avatar == avatar,
    {
        AccountPair { uid, name, avatar }
    }

    /// The account pair describing `session`.
    pub fn from_internal(session: &SessionInfo) -> (p: Self)
        ensures
            p.uid == session.uid,
            p.name == session.stu_name,
            p.avatar == session.avatar,
    {
        AccountPair::new(session.uid.clone(), session.stu_name.clone(), session.avatar.clone())
    }
}

impl From<&SessionInfo> for AccountPair {
    /// The account pair describing `session`.
    fn from(session: &SessionInfo) -> (p: AccountPair) {
        AccountPair::from_internal(session)
    }
}

impl vstd::std_specs::convert::FromSpecImpl<&SessionInfo> for AccountPair {
    open spec fn obeys_from_spec() -> bool {
        true
    }

    open spec fn from_spec(v: &SessionInfo) -> AccountPair {
        AccountPair { uid: v.uid, name: v.stu_name, avatar: v.avatar }
    }
}

// ---------------------------------------------------------------------
// Login names of the form `<login type>:<user name>`.
// ---------------------------------------------------------------------

/// Position of the first `:` in `s`, if any.
pub open spec fn first_colon(s: Seq<char>) -> Option<int> {
    if exists|i: int| 0 <= i < s.len() && s[i] == ':' {
        Some(choose|i: int| 0 <= i < s.len() && s[i] == ':' && forall|j: int| 0 <= j < i ==> s[j] != ':')
    } else {
        None
    }
}

/// The login type and the user name that `uname` stands for: the text
/// before and after its first `:`, or `default_type` and the whole of
/// `uname` when it holds no `:`.
pub open spec fn login_parts(uname: Seq<char>, default_type: Seq<char>) -> (Seq<char>, Seq<char>) {
    match first_colon(uname) {
        Some(i) => (uname.take(i), uname.skip(i + 1)),
        None => (default_type, uname),
    }
}

proof fn lemma_first_colon_exists(s: Seq<char>, i: int)
    requires
        0 <= i < s.len(),
        s[i] == ':',
    ensures
        exists|m: int| 0 <= m <= i && s[m] == ':' && forall|j: int| 0 <= j < m ==> s[j] != ':',
    decreases i,
{
    if exists|j: int| 0 <= j < i && s[j] == ':' {
        let j = choose|j: int| 0 <= j < i && s[j] == ':';
        lemma_first_colon_exists(s, j);
    } else {
        assert(0 <= i <= i && s[i] == ':' && forall|j: int| 0 <= j < i ==> s[j] != ':');
    }
}

/// Law: when a login name holds a `:`, the login type holds none, and
/// the login type, a `:` and the user name spell the login name again.
pub proof fn lemma_login_parts_rejoin(uname: Seq<char>, default_type: Seq<char>)
    requires
        exists|i: int| 0 <= i < uname.len() && uname[i] == ':',
    ensures
        login_parts(uname, default_type).0 + seq![':'] + login_parts(uname, default_type).1
            == uname,
        forall|j: int|
            0 <= j < login_parts(uname, default_type).0.len() ==> #[trigger] login_parts(
                uname,
                default_type,
            ).0[j] != ':',
{
    let w = choose|i: int| 0 <= i < uname.len() && uname[i] == ':';
    lemma_first_colon_exists(uname, w);
    let i = choose|i: int| 0 <= i < uname.len() && uname[i] == ':' && forall|j: int| 0 <= j < i ==> uname[j] != ':';
    assert(first_colon(uname) == Some(i));
    assert(uname.take(i) + seq![':'] + uname.skip(i + 1) =~= uname);
    assert forall|j: int| 0 <= j < uname.take(i).len() implies #[trigger] uname.take(i)[j] != ':' by {
        assert(uname.take(i)[j] == uname[j]);
    }
}

/// Splits a login name into (login type, user name) at its first `:`;
/// without a `:` the login type is `default_type`.
pub fn split_login_name(uname: &str, default_type: &str) -> (r: (String, String))
    ensures
        (r.0@, r.1@) == login_parts(uname@, default_type@),
{
    let ghost s = uname@;
    let len: usize = uname.unicode_len();
    let mut i: usize = 0;
    while i < len
        invariant
            len == s.len(),
            uname@ == s,
            0 <= i <= len,
            forall|j: int| 0 <= j < i ==> s[j] != ':',
        decreases len - i,
    {
        if uname.get_char(i) == ':' {
            proof {
                let w = choose|w: int| 0 <= w < s.len() && s[w] == ':' && forall|j: int| 0 <= j < w ==> s[j] != ':';
                assert(s[i as int] == ':');
                if w < i {
                    assert(s[w] != ':');
                } else if w > i {
                    assert(s[i as int] != ':');
                }
                assert(first_colon(s) == Some(i as int));
            }
            let before = uname.substring_char(0, i);
            let after = uname.substring_char(i + 1, len);
            assert(after@ =~= s.skip(i + 1));
            assert(before@ =~= s.take(i as int));
            return (String::from_str(before), String::from_str(after));
        }
        i = i + 1;
    }
    (String::from_str(default_type), String::from_str(uname))
}

// ---------------------------------------------------------------------
// The table of logged-in accounts, keyed by account identifier.
// ---------------------------------------------------------------------

/// The account pair shown for the account stored under `uid`.
pub open spec fn shown_pair(uid: Seq<char>, info: SessionInfo, p: AccountPair) -> bool {
    p.uid@ == uid && p.name@ == info.stu_name@ && p.avatar@ == info.avatar@
}

/// The accounts of `sessions`, in table order, as shown to the user: the
/// identifier each is stored under, with the student's name and avatar.
pub fn list_accounts<S>(sessions: &KeyedTable<AccountEntry<S>>) -> (pairs: Vec<AccountPair>)
    ensures
        pairs.len() == sessions@.len(),
        forall|i: int|
            0 <= i < pairs.len() ==> shown_pair(
                sessions@[i].0,
                sessions@[i].1.info,
                #[trigger] pairs@[i],
            ),
{
    let mut pairs: Vec<AccountPair> = Vec::new();
    let n = sessions.len();
    let mut i: usize = 0;
    while i < n
        invariant
            n == sessions@.len(),
            0 <= i <= n,
            pairs.len() == i,
            forall|k: int|
                0 <= k < i ==> shown_pair(sessions@[k].0, sessions@[k].1.info, #[trigger] pairs@[k]),
        decreases n - i,
    {
        let uid = sessions.key_at(i);
        let entry = sessions.value_at(i);
        let pair = AccountPair::new(
            String::from_str(uid),
            entry.info.stu_name.clone(),
            entry.info.avatar.clone(),
        );
        pairs.push(pair);
        i = i + 1;
    }
    pairs
}

/// The table after storing each of `entries` in turn.
pub open spec fn insert_all<V>(s: Seq<(Seq<char>, V)>, entries: Seq<(String, V)>) -> Seq<
    (Seq<char>, V),
>
    decreases entries.len(),
{
    if entries.len() == 0 {
        s
    } else {
        crate::table::insert_entry(
            insert_all(s, entries.drop_last()),
            entries.last().0@,
            entries.last().1,
        )
    }
}

/// Law: storing a list of entries in turn keeps keys distinct; every key
/// of the list is present afterwards and reads the value of its last entry
/// in the list; keys the list does not mention read what they read before.
pub proof fn lemma_insert_all<V>(s: Seq<(Seq<char>, V)>, e: Seq<(String, V)>)
    requires
        crate::table::keys_distinct(s),
    ensures
        crate::table::keys_distinct(insert_all(s, e)),
        forall|k: int|
            0 <= k < e.len() ==> crate::table::has_key(insert_all(s, e), #[trigger] e[k].0@),
        forall|k: int|
            0 <= k < e.len() && (forall|j: int| k < j < e.len() ==> e[j].0@ != e[k].0@) ==> crate::table::lookup(
                insert_all(s, e),
                #[trigger] e[k].0@,
            ) == Some(e[k].1),
        forall|x: Seq<char>|
            (forall|k: int| 0 <= k < e.len() ==> #[trigger] e[k].0@ != x) ==> #[trigger] crate::table::lookup(
                insert_all(s, e),
                x,
            ) == crate::table::lookup(s, x),
    decreases e.len(),
{
    if e.len() > 0 {
        let d = e.drop_last();
        lemma_insert_all(s, d);
        let p = insert_all(s, d);
        let key = e.last().0@;
        let val = e.last().1;
        let r = insert_all(s, e);
        assert(r == crate::table::insert_entry(p, key, val));
        crate::table::lemma_insert_lookup(p, key, val, key);
        assert forall|x: Seq<char>| x != key implies #[trigger] crate::table::lookup(r, x)
            == crate::table::lookup(p, x) by {
            crate::table::lemma_insert_lookup(p, key, val, x);
        }
        assert forall|k: int| 0 <= k < e.len() implies crate::table::has_key(r, #[trigger] e[k].0@) by {
            if k < e.len() - 1 && e[k].0@ != key {
                assert(d[k] == e[k]);
                assert(crate::table::has_key(p, d[k].0@));
                assert(crate::table::lookup(r, e[k].0@) == crate::table::lookup(p, e[k].0@));
            }
        }
        assert forall|k: int|
            0 <= k < e.len() && (forall|j: int| k < j < e.len() ==> e[j].0@ != e[k].0@) implies crate::table::lookup(
            r,
            #[trigger] e[k].0@,
        ) == Some(e[k].1) by {
            if k < e.len() - 1 {
                assert(e[e.len() - 1].0@ != e[k].0@);
                assert(d[k] == e[k]);
                assert forall|j: int| k < j < d.len() implies d[j].0@ != d[k].0@ by {
                    assert(d[j] == e[j]);
                }
                assert(crate::table::lookup(p, d[k].0@) == Some(d[k].1));
            }
        }
        assert forall|x: Seq<char>|
            (forall|k: int| 0 <= k < e.len() ==> #[trigger] e[k].0@ != x) implies #[trigger] crate::table::lookup(
            r,
            x,
        ) == crate::table::lookup(s, x) by {
            assert(e[e.len() - 1].0@ != x);
            assert forall|k: int| 0 <= k < d.len() implies #[trigger] d[k].0@ != x by {
                assert(d[k] == e[k]);
            }
        }
    }
}

/// The table after dropping each of `uids` in turn.
pub open spec fn remove_all<V>(s: Seq<(Seq<char>, V)>, uids: Seq<String>) -> Seq<(Seq<char>, V)>
    decreases uids.len(),
{
    if uids.len() == 0 {
        s
    } else {
        crate::table::remove_entry(remove_all(s, uids.drop_last()), uids.last()@)
    }
}

/// Law: after dropping each of `uids` from a table without repeated keys,
/// none of `uids` is a key any more, keys stay distinct, and every key not
/// among `uids` reads back what it read before.
pub proof fn lemma_remove_all<V>(s: Seq<(Seq<char>, V)>, uids: Seq<String>, x: Seq<char>)
    requires
        crate::table::keys_distinct(s),
    ensures
        crate::table::keys_distinct(remove_all(s, uids)),
        forall|i: int| 0 <= i < uids.len() ==> !crate::table::has_key(remove_all(s, uids), #[trigger] uids[i]@),
        (forall|i: int| 0 <= i < uids.len() ==> #[trigger] uids[i]@ != x) ==> crate::table::lookup(
            remove_all(s, uids),
            x,
        ) == crate::table::lookup(s, x),
    decreases uids.len(),
{
    if uids.len() > 0 {
        let p = uids.drop_last();
        let t = remove_all(s, p);
        let k = uids.last()@;
        lemma_remove_all(s, p, x);
        crate::table::lemma_remove_lookup(t, k, x);
        if forall|i: int| 0 <= i < uids.len() ==> #[trigger] uids[i]@ != x {
            assert forall|i: int| 0 <= i < p.len() implies #[trigger] p[i]@ != x by {
                assert(p[i] == uids[i]);
            }
            assert(uids[uids.len() - 1]@ != x);
        }
        assert forall|i: int| 0 <= i < uids.len() implies !crate::table::has_key(
            remove_all(s, uids),
            #[trigger] uids[i]@,
        ) by {
            crate::table::lemma_remove_lookup(t, k, uids[i]@);
            if i < uids.len() - 1 {
                lemma_remove_all(s, p, uids[i]@);
                assert(p[i] == uids[i]);
                assert(!crate::table::has_key(t, uids[i]@));
            }
        }
    }
}

/// Stores every loaded account in `sessions`, a later entry replacing an
/// earlier one with the same identifier.
pub fn load_accounts<S>(sessions: &mut KeyedTable<S>, loaded: Vec<(String, S)>)
    ensures
        final(sessions)@ == insert_all(old(sessions)@, loaded@),
{
    let ghost all = loaded@;
    let ghost start = sessions@;
    let total: usize = loaded.len();
    let mut rest = loaded;
    let mut done: usize = 0;
    while rest.len() > 0
        invariant
            done <= all.len(),
            all.len() == total,
            rest@ == all.skip(done as int),
            sessions@ == insert_all(start, all.take(done as int)),
        decreases rest.len(),
    {
        assert(rest@.len() == all.len() - done);
        let (uid, session) = rest.remove(0);
        proof {
            assert(all.take(done + 1).drop_last() =~= all.take(done as int));
            assert(all[done as int] == (uid, session));
        }
        sessions.insert(uid, session);
        proof {
            assert(rest@ =~= all.skip(done + 1));
        }
        done = done + 1;
    }
    assert(all.take(all.len() as int) =~= all);
}

/// Drops the accounts listed in `uid_vec` from `sessions`.
pub fn delete_accounts<S>(uid_vec: Vec<String>, sessions: &mut KeyedTable<S>)
    ensures
        final(sessions)@ == remove_all(old(sessions)@, uid_vec@),
        forall|i: int|
            0 <= i < uid_vec.len() ==> !crate::table::has_key(final(sessions)@, #[trigger] uid_vec@[i]@),
        forall|x: Seq<char>|
            (forall|i: int| 0 <= i < uid_vec.len() ==> #[trigger] uid_vec@[i]@ != x) ==> #[trigger] crate::table::lookup(
                final(sessions)@,
                x,
            ) == crate::table::lookup(old(sessions)@, x),
{
    let ghost start = sessions@;
    let mut i: usize = 0;
    while i < uid_vec.len()
        invariant
            0 <= i <= uid_vec.len(),
            sessions@ == remove_all(start, uid_vec@.take(i as int)),
            forall|j: int| 0 <= j < i ==> !crate::table::has_key(sessions@, #[trigger] uid_vec@[j]@),
            forall|x: Seq<char>|
                (forall|j: int| 0 <= j < i ==> #[trigger] uid_vec@[j]@ != x) ==> #[trigger] crate::table::lookup(
                    sessions@,
                    x,
                ) == crate::table::lookup(start, x),
        decreases uid_vec.len() - i,
    {
        proof {
            assert(uid_vec@.take(i + 1).drop_last() =~= uid_vec@.take(i as int));
        }
        let ghost before = sessions@;
        let ghost key = uid_vec@[i as int]@;
        let _ = sessions.remove(uid_vec[i].as_str());
        proof {
            assert forall|x: Seq<char>| true implies #[trigger] crate::table::lookup(sessions@, x)
                == if x == key {
                None
            } else {
                crate::table::lookup(before, x)
            } by {
                crate::table::lemma_remove_lookup(before, key, x);
            }
            assert forall|j: int| 0 <= j < i + 1 implies !crate::table::has_key(
                sessions@,
                #[trigger] uid_vec@[j]@,
            ) by {
                assert(crate::table::lookup(sessions@, uid_vec@[j]@) is None);
            }
            assert forall|x: Seq<char>|
                (forall|j: int| 0 <= j < i + 1 ==> #[trigger] uid_vec@[j]@ != x) implies #[trigger] crate::table::lookup(
                sessions@,
                x,
            ) == crate::table::lookup(start, x) by {
                assert(uid_vec@[i as int]@ != x);
            }
        }
        i = i + 1;
    }
    assert(uid_vec@.take(uid_vec.len() as int) =~= uid_vec@);
}

/// How refreshing one account changes the table of logged-in accounts:
/// nothing happens to an account the data base does not know
/// (`had_account` false); a known account is dropped, and stored again
/// with its new session when logging in again succeeded (`relogged`).
pub fn refresh_step<S>(sessions: &mut KeyedTable<S>, uid: String, had_account: bool, relogged: Option<S>)
    ensures
        !had_account ==> final(sessions)@ == old(sessions)@,
        had_account && relogged is None ==> final(sessions)@ == crate::table::remove_entry(
            old(sessions)@,
            uid@,
        ),
        had_account && relogged is Some ==> final(sessions)@ == crate::table::insert_entry(
            crate::table::remove_entry(old(sessions)@, uid@),
            uid@,
            relogged->0,
        ),
{
    if had_account {
        let _ = sessions.remove(uid.as_str());
        match relogged {
            Some(session) => {
                let _ = sessions.insert(uid, session);
            },
            None => {},
        }
    }
}

/// Positions in the table of the accounts named in `names`, in the order
/// of `names`, skipping names that are not logged in.
pub open spec fn positions_for<V>(s: Seq<(Seq<char>, V)>, names: Seq<String>) -> Seq<usize>
    decreases names.len(),
{
    if names.len() == 0 {
        Seq::empty()
    } else {
        let p = positions_for(s, names.drop_last());
        if crate::table::has_key(s, names.last()@) {
            p.push(crate::table::key_index(s, names.last()@) as usize)
        } else {
            p
        }
    }
}

/// Positions of the accounts named in `unames`, in the order given, names
/// that are not logged in being skipped.
pub fn accounts_for_names<S>(sessions: &KeyedTable<S>, unames: &Vec<String>) -> (picked: Vec<usize>)
    ensures
        picked@ == positions_for(sessions@, unames@),
        forall|j: int| 0 <= j < picked.len() ==> #[trigger] picked@[j] < sessions@.len(),
{
    let mut picked: Vec<usize> = Vec::new();
    let mut i: usize = 0;
    while i < unames.len()
        invariant
            0 <= i <= unames.len(),
            picked@ == positions_for(sessions@, unames@.take(i as int)),
            forall|j: int| 0 <= j < picked.len() ==> #[trigger] picked@[j] < sessions@.len(),
        decreases unames.len() - i,
    {
        proof {
            assert(unames@.take(i + 1).drop_last() =~= unames@.take(i as int));
            assert(unames@.take(i + 1).last() == unames@[i as int]);
        }
        match sessions.find(unames[i].as_str()) {
            Some(p) => {
                picked.push(p);
            },
            None => {},
        }
        i = i + 1;
    }
    assert(unames@.take(unames.len() as int) =~= unames@);
    picked
}

/// Positions of the logged-in accounts among `accounts`, each once: the
/// sessions that a prepared sign-in is carried out with.
pub fn sign_session_positions<S>(sessions: &KeyedTable<S>, accounts: &Vec<AccountPair>) -> (picked: Vec<usize>)
    ensures
        forall|j: int, l: int| 0 <= j < l < picked.len() ==> picked@[j] != picked@[l],
        forall|j: int|
            0 <= j < picked.len() ==> #[trigger] picked@[j] < sessions@.len() && exists|a: int|
                0 <= a < accounts.len() && #[trigger] accounts@[a].uid@ == sessions@[picked@[j] as int].0,
        forall|a: int|
            0 <= a < accounts.len() && crate::table::has_key(sessions@, #[trigger] accounts@[a].uid@)
                ==> picked@.contains(crate::table::key_index(sessions@, accounts@[a].uid@) as usize),
{
    let mut picked: Vec<usize> = Vec::new();
    let mut i: usize = 0;
    while i < accounts.len()
        invariant
            0 <= i <= accounts.len(),
            forall|j: int, l: int| 0 <= j < l < picked.len() ==> picked@[j] != picked@[l],
            forall|j: int|
                0 <= j < picked.len() ==> #[trigger] picked@[j] < sessions@.len() && exists|a: int|
                    0 <= a < accounts.len() && #[trigger] accounts@[a].uid@ == sessions@[picked@[j] as int].0,
            forall|a: int|
                0 <= a < i && crate::table::has_key(sessions@, #[trigger] accounts@[a].uid@)
                    ==> picked@.contains(crate::table::key_index(sessions@, accounts@[a].uid@) as usize),
        decreases accounts.len() - i,
    {
        let ghost before = picked@;
        match sessions.find(accounts[i].get_uid()) {
            Some(p) => {
                let mut seen = false;
                let mut j: usize = 0;
                while j < picked.len()
                    invariant
                        0 <= j <= picked.len(),
                        picked@ == before,
                        seen <==> exists|k: int| 0 <= k < j && picked@[k] == p,
                    decreases picked.len() - j,
                {
                    if picked[j] == p {
                        seen = true;
                    }
                    j = j + 1;
                }
                if !seen {
                    picked.push(p);
                    assert(picked@[before.len() as int] == p);
                    assert(accounts@[i as int].uid@ == sessions@[p as int].0);
                } else {
                    proof {
                        let k = choose|k: int| 0 <= k < before.len() && before[k] == p;
                        assert(picked@[k] == p);
                    }
                }
            },
            None => {},
        }
        assert forall|a: int|
            0 <= a < i + 1 && crate::table::has_key(sessions@, #[trigger] accounts@[a].uid@)
                implies picked@.contains(crate::table::key_index(sessions@, accounts@[a].uid@) as usize) by {
            if a < i {
                let x = crate::table::key_index(sessions@, accounts@[a].uid@) as usize;
                let k = choose|k: int| 0 <= k < before.len() && before[k] == x;
                assert(picked@[k] == x);
            }
        }
        i = i + 1;
    }
    picked
}

/// The account whose session serves requests that need any logged-in
/// account: the first one in the table, or the message shown when no
/// account is logged in.
pub fn first_session<S>(sessions: &KeyedTable<S>) -> (r: Result<usize, String>)
    ensures
        r matches Ok(p) ==> p == 0 && sessions@.len() > 0,
        r is Err <==> sessions@.len() == 0,
        r matches Err(m) ==> m@ == "请至少登录一个账号！"@,
{
    if sessions.len() == 0 {
        proof {
            reveal_strlit("请至少登录一个账号！");
        }
        Err(String::from_str("请至少登录一个账号！"))
    } else {
        Ok(0)
    }
}

} // verus!
