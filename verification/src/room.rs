use vstd::prelude::*;

verus! {

/// A classroom as listed by the live-lecture service.
pub struct Room {
    pub name: String,
    pub device_code: String,
    pub room_id: i32,
    pub id: i32,
}

/// Name and camera device code of a classroom, as shown to the user.
pub struct RoomPair {
    pub name: String,
    pub code: String,
}

/// A student's current lecture: the student's name, the classroom and the
/// video addresses of its live stream (`P`, supplied by the caller).
pub struct LiveUrlPair<P> {
    pub name: String,
    pub room: RoomPair,
    pub live: P,
}

/// `c` has the Unicode `White_Space` property (the characters that
/// `char::is_whitespace` accepts).
pub open spec fn is_white_space(c: char) -> bool {
    ||| ('\u{9}' <= c && c <= '\u{d}')
    ||| c == ' '
    ||| c == '\u{85}'
    ||| c == '\u{a0}'
    ||| c == '\u{1680}'
    ||| ('\u{2000}' <= c && c <= '\u{200a}')
    ||| c == '\u{2028}'
    ||| c == '\u{2029}'
    ||| c == '\u{202f}'
    ||| c == '\u{205f}'
    ||| c == '\u{3000}'
}

/// `s` without its trailing white space.
pub open spec fn trimmed_end(s: Seq<char>) -> Seq<char>
    decreases s.len(),
{
    if s.len() > 0 && is_white_space(s.last()) {
        trimmed_end(s.drop_last())
    } else {
        s
    }
}

/// Law: trimming the end keeps a prefix of the text, cuts off only white
/// space, leaves no trailing white space, and trimming again changes
/// nothing.
pub proof fn lemma_trimmed_end(s: Seq<char>)
    ensures
        trimmed_end(s).len() <= s.len(),
        trimmed_end(s) == s.take(trimmed_end(s).len() as int),
        forall|i: int| trimmed_end(s).len() <= i < s.len() ==> is_white_space(#[trigger] s[i]),
        trimmed_end(s).len() == 0 || !is_white_space(trimmed_end(s).last()),
        trimmed_end(trimmed_end(s)) == trimmed_end(s),
    decreases s.len(),
{
    if s.len() > 0 && is_white_space(s.last()) {
        let t = s.drop_last();
        lemma_trimmed_end(t);
        let r = trimmed_end(t);
        assert(r == t.take(r.len() as int));
        assert(t.take(r.len() as int) =~= s.take(r.len() as int));
        assert forall|i: int| r.len() <= i < s.len() implies is_white_space(#[trigger] s[i]) by {
            if i < t.len() {
                assert(s[i] == t[i]);
            }
        }
    } else {
        assert(s.take(s.len() as int) =~= s);
    }
}

/// Whether `c` is a white-space character.
pub fn is_white_space_char(c: char) -> (b: bool)
    ensures
        b == is_white_space(c),
{
    ('\u{9}' <= c && c <= '\u{d}') || c == ' ' || c == '\u{85}' || c == '\u{a0}' || c
        == '\u{1680}' || ('\u{2000}' <= c && c <= '\u{200a}') || c == '\u{2028}' || c
        == '\u{2029}' || c == '\u{202f}' || c == '\u{205f}' || c == '\u{3000}'
}

/// A copy of `text` without its trailing white space.
pub fn trim_end_str(text: &str) -> (r: String)
    ensures
        r@ == trimmed_end(text@),
{
    let ghost s = text@;
    let mut i: usize = text.unicode_len();
    assert(s.take(i as int) =~= s);
    while i > 0
        invariant
            i <= s.len(),
            text@ == s,
            trimmed_end(s.take(i as int)) == trimmed_end(s),
        ensures
            i <= s.len(),
            trimmed_end(s.take(i as int)) == trimmed_end(s),
            i == 0 || !is_white_space(s[i - 1]),
        decreases i,
    {
        let c: char = text.get_char(i - 1);
        if !is_white_space_char(c) {
            break;
        }
        assert(s.take(i as int).drop_last() =~= s.take(i - 1));
        i = i - 1;
    }
    assert(trimmed_end(s.take(i as int)) == s.take(i as int)) by {
        if i > 0 {
            assert(s.take(i as int).last() == s[i - 1]);
        }
    }
    let kept: &str = text.substring_char(0, i);
    assert(kept@ =~= s.take(i as int));
    String::from_str(kept)
}

impl Room {
    /// The name and device code of this classroom.
    pub fn into_room_pair(self) -> (p: RoomPair)
        ensures
            p.name == self.name,
            p.code == self.device_code,
    {
        RoomPair { name: self.name, code: self.device_code }
    }

    /// This classroom with the trailing white space cut off its name.
    pub fn trim_end(self) -> (r: Room)
        ensures
            r.name@ == trimmed_end(self.name@),
            r.device_code == self.device_code,
            r.room_id == self.room_id,
            r.id == self.id,
    {
        let name = trim_end_str(self.name.as_str());
        Room { name, device_code: self.device_code, room_id: self.room_id, id: self.id }
    }

    /// The classroom listed for lecture `live_id`: the first entry of
    /// `rooms` with that identifier, its name trimmed at the end; `None`
    /// when no entry has it.
    pub fn room_for_live(rooms: Vec<Room>, live_id: i32) -> (r: Option<Room>)
        ensures
            r is None <==> forall|k: int| 0 <= k < rooms@.len() ==> #[trigger] rooms@[k].id != live_id,
            r matches Some(room) ==> exists|k: int|
                0 <= k < rooms@.len() && #[trigger] rooms@[k].id == live_id && (forall|m: int|
                    0 <= m < k ==> rooms@[m].id != live_id) && room.name@ == trimmed_end(
                    rooms@[k].name@,
                ) && room.device_code == rooms@[k].device_code && room.room_id == rooms@[k].room_id
                    && room.id == rooms@[k].id,
    {
        let mut i: usize = 0;
        while i < rooms.len()
            invariant
                0 <= i <= rooms.len(),
                forall|m: int| 0 <= m < i ==> #[trigger] rooms@[m].id != live_id,
            decreases rooms.len() - i,
        {
            if rooms[i].id == live_id {
                let found = Room {
                    name: rooms[i].name.clone(),
                    device_code: rooms[i].device_code.clone(),
                    room_id: rooms[i].room_id,
                    id: rooms[i].id,
                };
                let trimmed = found.trim_end();
                assert(rooms@[i as int].id == live_id);
                return Some(trimmed);
            }
            i = i + 1;
        }
        None
    }
}

impl From<Room> for RoomPair {
    /// The name and device code of `value`.
    fn from(value: Room) -> (p: RoomPair) {
        value.into_room_pair()
    }
}

impl vstd::std_specs::convert::FromSpecImpl<Room> for RoomPair {
    open spec fn obeys_from_spec() -> bool {
        true
    }

    open spec fn from_spec(v: Room) -> RoomPair {
        RoomPair { name: v.name, code: v.device_code }
    }
}

} // verus!
