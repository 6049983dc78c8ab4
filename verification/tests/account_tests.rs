use xdsign::account::{
    accounts_for_names, delete_accounts, refresh_step, first_session, list_accounts, load_accounts,
    sign_session_positions, split_login_name, AccountEntry, AccountPair, SessionInfo,
};
use xdsign::table::KeyedTable;

fn info(uid: &str, name: &str) -> SessionInfo {
    SessionInfo { uid: uid.to_string(), stu_name: name.to_string(), avatar: format!("https://img/{uid}") }
}

#[test]
fn account_pair_basics() {
    let p = AccountPair::new("42".to_string(), "Li".to_string(), "av".to_string());
    assert_eq!(p.get_uid(), "42");
    let q = AccountPair::from(&info("7", "Wang"));
    assert_eq!(q.uid, "7");
    assert_eq!(q.name, "Wang");
    assert_eq!(q.avatar, "https://img/7");
    let r = AccountPair::from_internal(&info("8", "Zhao"));
    assert_eq!(r.get_uid(), "8");
}

#[test]
fn split_login_with_and_without_type() {
    assert_eq!(
        split_login_name("phone:13800000000", "default"),
        ("phone".to_string(), "13800000000".to_string())
    );
    assert_eq!(split_login_name("student", "default"), ("default".to_string(), "student".to_string()));
    // only the first colon separates
    assert_eq!(split_login_name("a:b:c", "d"), ("a".to_string(), "b:c".to_string()));
    assert_eq!(split_login_name(":x", "d"), ("".to_string(), "x".to_string()));
    assert_eq!(split_login_name("", "d"), ("d".to_string(), "".to_string()));
}

#[test]
fn list_load_and_delete_accounts() {
    let mut t: KeyedTable<AccountEntry<u32>> = KeyedTable::new();
    t.insert("1".to_string(), AccountEntry { info: info("1", "A"), session: 10 });
    t.insert("2".to_string(), AccountEntry { info: info("2", "B"), session: 20 });
    let pairs = list_accounts(&t);
    assert_eq!(pairs.len(), 2);
    assert_eq!(pairs[0].uid, "1");
    assert_eq!(pairs[0].name, "A");
    assert_eq!(pairs[1].uid, "2");
    assert_eq!(pairs[1].avatar, "https://img/2");

    let mut sessions: KeyedTable<u32> = KeyedTable::new();
    load_accounts(&mut sessions, vec![("a".to_string(), 1), ("b".to_string(), 2), ("a".to_string(), 3)]);
    assert_eq!(sessions.len(), 2);
    assert_eq!(sessions.get("a"), Some(&3));
    assert_eq!(sessions.get("b"), Some(&2));
    delete_accounts(vec!["a".to_string(), "zz".to_string()], &mut sessions);
    assert_eq!(sessions.len(), 1);
    assert_eq!(sessions.get("a"), None);
    assert_eq!(sessions.get("b"), Some(&2));
}

#[test]
fn accounts_for_names_in_order() {
    let mut sessions: KeyedTable<u32> = KeyedTable::new();
    sessions.insert("u1".to_string(), 1);
    sessions.insert("u2".to_string(), 2);
    let names = vec!["u2".to_string(), "ghost".to_string(), "u1".to_string(), "u2".to_string()];
    assert_eq!(accounts_for_names(&sessions, &names), vec![1, 0, 1]);
}

#[test]
fn sign_sessions_each_once() {
    let mut sessions: KeyedTable<u32> = KeyedTable::new();
    sessions.insert("u1".to_string(), 1);
    sessions.insert("u2".to_string(), 2);
    let accounts = vec![
        AccountPair::new("u2".to_string(), "B".to_string(), String::new()),
        AccountPair::new("nobody".to_string(), "N".to_string(), String::new()),
        AccountPair::new("u2".to_string(), "B".to_string(), String::new()),
        AccountPair::new("u1".to_string(), "A".to_string(), String::new()),
    ];
    assert_eq!(sign_session_positions(&sessions, &accounts), vec![1, 0]);
}

#[test]
fn first_session_needs_an_account() {
    let mut sessions: KeyedTable<u32> = KeyedTable::new();
    assert_eq!(first_session(&sessions), Err("请至少登录一个账号！".to_string()));
    sessions.insert("u".to_string(), 5);
    assert_eq!(first_session(&sessions), Ok(0));
}

#[test]
fn split_login_rejoins() {
    for name in ["phone:138", "a:b:c", ":x", "x:", "type:"] {
        let (t, u) = split_login_name(name, "default");
        assert!(!t.contains(':'));
        assert_eq!(format!("{t}:{u}"), name);
    }
}

#[test]
fn refresh_step_cases() {
    let mut t: KeyedTable<u32> = KeyedTable::new();
    t.insert("a".to_string(), 1);
    t.insert("b".to_string(), 2);
    // unknown to the data base: nothing changes
    refresh_step(&mut t, "a".to_string(), false, Some(9));
    assert_eq!(t.get("a"), Some(&1));
    // known, relogin failed: dropped
    refresh_step(&mut t, "a".to_string(), true, None);
    assert_eq!(t.get("a"), None);
    assert_eq!(t.len(), 1);
    // known, relogin succeeded: stored again with the new session, at the end
    refresh_step(&mut t, "b".to_string(), true, Some(20));
    assert_eq!(t.get("b"), Some(&20));
    refresh_step(&mut t, "c".to_string(), true, Some(30));
    assert_eq!(t.key_at(1), "c");
}
