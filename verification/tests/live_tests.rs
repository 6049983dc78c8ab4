use xdsign::live::{distinct_live_ids, lives_to_place_ids, pair_sessions_with_rooms, select_live_by_time, Live};
use xdsign::room::{trim_end_str, LiveUrlPair, Room, RoomPair};

fn live(place: &str, id: i32, week_day: u32, jie: i32) -> Live {
    Live { place: place.to_string(), id, week_day, jie }
}

#[test]
fn live_getters() {
    let l = live("A-101", 9, 3, 5);
    assert_eq!(l.get_id(), 9);
    assert_eq!(l.get_week_day(), 3);
    assert_eq!(l.get_jie(), 5);
}

#[test]
fn select_live_earliest_and_stable() {
    let lives = vec![
        live("a", 1, 2, 5),
        live("b", 2, 3, 7),
        live("c", 3, 3, 3),
        live("d", 4, 3, 5),
        live("e", 5, 3, 5),
    ];
    // day 3 from period 4: periods 7, 5, 5 qualify; the first with period 5 wins
    let r = select_live_by_time(&lives, 3, 4).unwrap();
    assert_eq!(r.id, 4);
    assert_eq!(r.place, "d");
    assert_eq!(select_live_by_time(&lives, 3, 1).unwrap().id, 3);
    assert_eq!(select_live_by_time(&lives, 3, 8).map(|l| l.id), None);
    assert_eq!(select_live_by_time(&lives, 1, 0).map(|l| l.id), None);
    assert_eq!(select_live_by_time(&vec![], 1, 0).map(|l| l.id), None);
}

#[test]
fn place_ids_last_wins() {
    let lives = vec![live("A", 1, 1, 1), live("B", 2, 1, 1), live("A", 3, 1, 1)];
    let m = lives_to_place_ids(lives);
    assert_eq!(m.len(), 2);
    assert_eq!(m.get("A"), Some(&3));
    assert_eq!(m.get("B"), Some(&2));
}

#[test]
fn distinct_ids_first_appearance() {
    let lives = vec![live("A", 5, 1, 1), live("B", 6, 1, 1), live("C", 5, 1, 1), live("D", 7, 1, 1)];
    assert_eq!(distinct_live_ids(&lives), vec![5, 6, 7]);
}

#[test]
fn sessions_joined_with_rooms() {
    let session_lives = vec![(0usize, 10), (1usize, 11), (2usize, 10)];
    let room_ids = vec![10, 12, 10];
    assert_eq!(pair_sessions_with_rooms(&session_lives, &room_ids), vec![(0, 0), (2, 0)]);
}

fn room(name: &str, id: i32) -> Room {
    Room { name: name.to_string(), device_code: format!("dev{id}"), room_id: 100 + id, id }
}

#[test]
fn room_trim_end_and_pairs() {
    let r = room("B-204 \t\u{3000}", 4).trim_end();
    assert_eq!(r.name, "B-204");
    assert_eq!(r.device_code, "dev4");
    assert_eq!(r.room_id, 104);
    let p = room("C-1", 1).into_room_pair();
    assert_eq!(p.name, "C-1");
    assert_eq!(p.code, "dev1");
    let q: RoomPair = RoomPair::from(room("D-2", 2));
    assert_eq!(q.code, "dev2");
    let u = LiveUrlPair { name: "Li".to_string(), room: q, live: "http://v".to_string() };
    assert_eq!(u.room.name, "D-2");
    assert_eq!(u.live, "http://v");
}

#[test]
fn trim_end_cases() {
    assert_eq!(trim_end_str(""), "");
    assert_eq!(trim_end_str("   "), "");
    assert_eq!(trim_end_str(" a b \n"), " a b");
    assert_eq!(trim_end_str("教室\u{a0}"), "教室");
    assert_eq!(trim_end_str("x\u{200b}"), "x\u{200b}");
    for s in ["a ", "a\u{2028}\u{85}", "tab\t", "none"] {
        assert_eq!(trim_end_str(s), s.trim_end());
    }
}

#[test]
fn room_for_live_first_match() {
    let rooms = vec![room("A  ", 1), room("B ", 2), room("C", 2)];
    let r = Room::room_for_live(rooms, 2).unwrap();
    assert_eq!(r.name, "B");
    assert_eq!(r.id, 2);
    let none = Room::room_for_live(vec![room("A", 1)], 9);
    assert!(none.is_none());
}

#[test]
fn trim_end_is_idempotent() {
    for s in ["a  ", " ", "", "b\u{3000}\t", "c"] {
        let once = trim_end_str(s);
        assert_eq!(trim_end_str(&once), once);
        assert!(s.starts_with(once.as_str()));
        assert!(!once.ends_with(char::is_whitespace));
    }
}
