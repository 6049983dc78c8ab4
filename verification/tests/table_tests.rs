use xdsign::table::KeyedTable;
use xdsign::uid_set::{add_uid, clear_uid_set, extent_uid_set, has_uid, remove_uid, UidSet};

#[test]
fn table_insert_get_and_replace() {
    let mut t: KeyedTable<i32> = KeyedTable::new();
    assert_eq!(t.len(), 0);
    assert_eq!(t.insert("a".to_string(), 1), None);
    assert_eq!(t.insert("b".to_string(), 2), None);
    assert_eq!(t.get("a"), Some(&1));
    assert_eq!(t.get("b"), Some(&2));
    assert_eq!(t.get("c"), None);
    // storing under an existing key replaces the value in place
    assert_eq!(t.insert("a".to_string(), 10), Some(1));
    assert_eq!(t.len(), 2);
    assert_eq!(t.key_at(0), "a");
    assert_eq!(*t.value_at(0), 10);
    assert_eq!(t.key_at(1), "b");
}

#[test]
fn table_remove_and_clear() {
    let mut t: KeyedTable<&str> = KeyedTable::new();
    t.insert("x".to_string(), "one");
    t.insert("y".to_string(), "two");
    t.insert("z".to_string(), "three");
    assert_eq!(t.remove("y"), Some("two"));
    assert_eq!(t.remove("y"), None);
    assert_eq!(t.len(), 2);
    assert_eq!(t.key_at(0), "x");
    assert_eq!(t.key_at(1), "z");
    assert_eq!(t.find("z"), Some(1));
    assert!(t.contains_key("x"));
    assert!(!t.contains_key("y"));
    t.clear();
    assert_eq!(t.len(), 0);
    assert!(!t.contains_key("x"));
}

#[test]
fn uid_set_commands() {
    let mut s = UidSet::new();
    assert!(add_uid("1001".to_string(), &mut s));
    assert!(!add_uid("1001".to_string(), &mut s));
    assert!(has_uid("1001".to_string(), &s));
    assert!(!has_uid("1002".to_string(), &s));
    assert!(remove_uid("1001".to_string(), &mut s));
    assert!(!remove_uid("1001".to_string(), &mut s));
    assert!(!has_uid("1001".to_string(), &s));
    extent_uid_set(vec!["7".to_string(), "8".to_string(), "7".to_string()], &mut s);
    assert!(has_uid("7".to_string(), &s));
    assert!(has_uid("8".to_string(), &s));
    clear_uid_set(&mut s);
    assert!(!has_uid("7".to_string(), &s));
    assert!(!has_uid("8".to_string(), &s));
}

#[test]
fn uid_set_select_positions() {
    let mut s = UidSet::new();
    s.insert("b".to_string());
    s.insert("d".to_string());
    let uids = vec!["a".to_string(), "b".to_string(), "c".to_string(), "d".to_string(), "b".to_string()];
    assert_eq!(s.select(&uids), vec![1, 3, 4]);
    assert!(s.select(&vec![]).is_empty());
}
