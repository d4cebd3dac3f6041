//! Memory of which rooms have talked to the bridge.
//!
//! Nothing is sent to a room that has not, and status is posted in the room that did so last. The
//! memory is written to a file, so that a restart does not make the bridge mute.

use vstd::prelude::*;

use crate::ids;
use crate::ids::room_id_valid;
use crate::paths;
use crate::paths::{channel_dir, join_path};
use crate::text;
use crate::text::{list_contains, same_text};

verus! {

/// What the file holds.
#[derive(Debug)]
pub struct RoomMemoryFile {
    pub rooms: Vec<String>,
    pub last_active: Option<String>,
}

/// The rooms that have talked to the bridge, and the one that did so last.
#[derive(Debug)]
pub struct KnownRooms {
    rooms: Vec<String>,
    last_active: Option<String>,
}

/// What is known of the rooms.
pub struct RoomsModel {
    pub rooms: Set<Seq<char>>,
    pub last_active: Option<Seq<char>>,
}

impl View for KnownRooms {
    type V = RoomsModel;

    closed spec fn view(&self) -> RoomsModel {
        RoomsModel {
            rooms: text::texts(self.rooms@).to_set(),
            last_active: text::text_in(self.last_active),
        }
    }
}

impl KnownRooms {
    /// Whether each room is held once.
    pub closed spec fn held_once(&self) -> bool {
        text::texts(self.rooms@).no_duplicates()
    }
}

/// What remembering `rooms` and `last_active` comes to: what is no room id is left out, and so is
/// a last active room that is not among the rooms.
pub open spec fn remembered(rooms: Set<Seq<char>>, last_active: Option<Seq<char>>) -> RoomsModel {
    let kept = rooms.filter(|room: Seq<char>| ids::is_room_id(room));
    RoomsModel {
        rooms: kept,
        last_active: match last_active {
            Some(room) => if kept.contains(room) {
                Some(room)
            } else {
                None
            },
            None => None,
        },
    }
}

impl RoomsModel {
    /// The last active room, if any, is a known one, and all of them have room ids.
    pub open spec fn well_formed(self) -> bool {
        &&& self.last_active matches Some(room) ==> self.rooms.contains(room)
        &&& forall|room: Seq<char>| #[trigger] self.rooms.contains(room) ==> ids::is_room_id(room)
    }

    /// The rooms after one of them talked to the bridge.
    pub open spec fn heard_from(self, room: Seq<char>) -> RoomsModel {
        RoomsModel { rooms: self.rooms.insert(room), last_active: Some(room) }
    }
}

/// The file that the rooms are remembered in.
pub fn store_path(home: Option<&str>, agent: &str) -> (path: String)
    ensures
        path@ == paths::joined(
            paths::channel_path(text::str_in(home), agent@),
            "known_rooms.json"@,
        ),
{
    join_path(channel_dir(home, agent).as_str(), "known_rooms.json")
}

/// A pushed text is one more in the set of the texts.
proof fn lemma_push_to_set(list: Seq<String>, item: String)
    ensures
        text::texts(list.push(item)).to_set() == text::texts(list).to_set().insert(item@),
{
    let before = text::texts(list);
    let after = text::texts(list.push(item));
    assert(after =~= before.push(item@));
    assert forall|t: Seq<char>| after.to_set().contains(t) <==> before.to_set().insert(
        item@,
    ).contains(t) by {
        if before.contains(t) {
            let i = choose|i: int| 0 <= i < before.len() && before[i] == t;
            assert(after[i] == t);
        }
        if t == item@ {
            assert(after[before.len() as int] == t);
        }
        if after.contains(t) {
            let i = choose|i: int| 0 <= i < after.len() && after[i] == t;
            if i < before.len() {
                assert(before[i] == t);
            }
        }
    }
    assert(after.to_set() =~= before.to_set().insert(item@));
}

/// A pushed text that was not there before is there once.
proof fn lemma_push_is_new(list: Seq<String>, item: String)
    requires
        !text::texts(list).contains(item@),
    ensures
        text::texts(list).no_duplicates() ==> text::texts(list.push(item)).no_duplicates(),
{
    let before = text::texts(list);
    let after = text::texts(list.push(item));
    assert(after =~= before.push(item@));
    if before.no_duplicates() {
        assert forall|i: int, j: int| 0 <= i < after.len() && 0 <= j < after.len() && i
            != j implies after[i] != after[j] by {
            if i < before.len() {
                assert(before.contains(before[i]));
            }
            if j < before.len() {
                assert(before.contains(before[j]));
            }
        }
    }
}

/// The rooms that a file remembers. A missing or unreadable file is no memory at all.
pub fn load(file: Option<RoomMemoryFile>) -> (known: KnownRooms)
    ensures
        known@ == match file {
            Some(f) => remembered(text::texts(f.rooms@).to_set(), text::text_in(f.last_active)),
            None => remembered(Set::empty(), None),
        },
        known@.well_formed(),
        known.held_once(),
{
    let mut rooms: Vec<String> = Vec::new();
    proof {
        assert(text::texts(rooms@).to_set() =~= Set::empty());
    }
    let f = match file {
        Some(f) => f,
        None => {
            let known = KnownRooms { rooms, last_active: None };
            proof {
                assert(known@.rooms =~= remembered(Set::empty(), None).rooms);
            }
            return known;
        },
    };
    let ghost all = text::texts(f.rooms@);
    let ghost valid = |room: Seq<char>| ids::is_room_id(room);
    let mut i: usize = 0;
    proof {
        assert(all.take(0).to_set().filter(valid) =~= Set::empty());
    }
    while i < f.rooms.len()
        invariant
            i <= f.rooms@.len(),
            all == text::texts(f.rooms@),
            valid == (|room: Seq<char>| ids::is_room_id(room)),
            text::texts(rooms@).to_set() == all.take(i as int).to_set().filter(valid),
            text::texts(rooms@).no_duplicates(),
        decreases f.rooms@.len() - i,
    {
        let ghost before = text::texts(rooms@).to_set();
        let ghost listed = rooms@;
        proof {
            assert(all.take(i + 1) =~= text::texts(f.rooms@.take(i as int).push(f.rooms@[i as int])));
            assert(all.take(i as int) =~= text::texts(f.rooms@.take(i as int)));
            lemma_push_to_set(f.rooms@.take(i as int), f.rooms@[i as int]);
        }
        if room_id_valid(f.rooms[i].as_str()) && !list_contains(&rooms, f.rooms[i].as_str()) {
            let room: String = f.rooms[i].clone();
            rooms.push(room);
            proof {
                lemma_push_to_set(listed, room);
                lemma_push_is_new(listed, room);
            }
        }
        proof {
            let t = all[i as int];
            assert(text::texts(rooms@).to_set() =~= all.take(i + 1).to_set().filter(valid)) by {
                if ids::is_room_id(t) {
                    assert(before.insert(t) =~= all.take(i + 1).to_set().filter(valid));
                    if before.contains(t) {
                        assert(before.insert(t) =~= before);
                    }
                }
            }
        }
        i += 1;
    }
    proof {
        assert(all.take(i as int) =~= all);
    }
    let last_active: Option<String> = match f.last_active {
        Some(room) => {
            if list_contains(&rooms, room.as_str()) {
                Some(room)
            } else {
                None
            }
        },
        None => None,
    };
    KnownRooms { rooms, last_active }
}

/// What to write to the file.
pub fn save(known: &KnownRooms) -> (file: RoomMemoryFile)
    ensures
        text::texts(file.rooms@).to_set() == known@.rooms,
        text::text_in(file.last_active) == known@.last_active,
        known.held_once() ==> text::texts(file.rooms@).no_duplicates(),
{
    let mut rooms: Vec<String> = Vec::new();
    let mut i: usize = 0;
    while i < known.rooms.len()
        invariant
            i <= known.rooms@.len(),
            text::texts(rooms@) == text::texts(known.rooms@).take(i as int),
        decreases known.rooms@.len() - i,
    {
        let ghost before = text::texts(rooms@);
        rooms.push(known.rooms[i].clone());
        i += 1;
        proof {
            let all = text::texts(known.rooms@);
            assert(text::texts(rooms@) =~= before.push(all[i - 1]));
            assert(all.take(i as int) =~= all.take(i - 1).push(all[i - 1]));
        }
    }
    proof {
        assert(text::texts(known.rooms@).take(i as int) =~= text::texts(known.rooms@));
    }
    RoomMemoryFile { rooms, last_active: known.last_active.clone() }
}

/// A restart forgets nothing: what was saved is what is loaded.
pub proof fn lemma_restart_forgets_nothing(known: RoomsModel)
    requires
        known.well_formed(),
    ensures
        remembered(known.rooms, known.last_active) == known,
{
    assert(remembered(known.rooms, known.last_active).rooms =~= known.rooms);
}

/// A room that is heard from is a known room, stays so when others are heard from, and the last
/// active room is always a known one.
pub proof fn lemma_heard_from_is_known(known: RoomsModel, room: Seq<char>)
    requires
        known.well_formed(),
        ids::is_room_id(room),
    ensures
        known.heard_from(room).well_formed(),
        known.heard_from(room).rooms.contains(room),
        forall|other: Seq<char>| #[trigger]
            known.rooms.contains(other) ==> known.heard_from(room).rooms.contains(other),
{
}

impl KnownRooms {
    /// Whether `room` has talked to the bridge.
    pub fn contains(&self, room: &str) -> (known: bool)
        ensures
            known == self@.rooms.contains(room@),
    {
        list_contains(&self.rooms, room)
    }

    /// Whether no room has talked to the bridge yet.
    pub fn is_empty(&self) -> (none: bool)
        ensures
            none == (self@.rooms == Set::<Seq<char>>::empty()),
    {
        proof {
            if self.rooms@.len() == 0 {
                assert(self@.rooms =~= Set::empty());
            } else {
                assert(text::texts(self.rooms@)[0] == self.rooms@[0]@);
                assert(self@.rooms.contains(self.rooms@[0]@));
            }
        }
        self.rooms.is_empty()
    }

    /// Takes note that `room` has just talked to the bridge; tells whether that is worth writing
    /// to the file.
    pub fn hear_from(&mut self, room: &str) -> (changed: bool)
        ensures
            final(self)@ == old(self)@.heard_from(room@),
            old(self).held_once() ==> final(self).held_once(),
            changed == (!old(self)@.rooms.contains(room@) || old(self)@.last_active != Some(room@)),
    {
        let newly_known: bool = !list_contains(&self.rooms, room);
        if newly_known {
            let ghost listed = self.rooms@;
            let copy: String = room.to_owned();
            self.rooms.push(copy);
            proof {
                lemma_push_to_set(listed, copy);
                lemma_push_is_new(listed, copy);
            }
        }
        let moved: bool = match &self.last_active {
            Some(last) => !same_text(last.as_str(), room),
            None => true,
        };
        self.last_active = Some(room.to_owned());
        proof {
            assert(self@.rooms =~= old(self)@.rooms.insert(room@));
        }
        newly_known || moved
    }

    /// The room to post status in: the last active one; any known one where none is on record.
    pub fn target_room(&self) -> (room: Option<String>)
        ensures
            match self@.last_active {
                Some(last) => room matches Some(r) && r@ == last,
                None => match room {
                    Some(r) => self@.rooms.contains(r@),
                    None => self@.rooms == Set::<Seq<char>>::empty(),
                },
            },
    {
        if self.last_active.is_some() {
            return self.last_active.clone();
        }
        if self.is_empty() {
            None
        } else {
            proof {
                assert(self.rooms@.len() != 0) by {
                    if self.rooms@.len() == 0 {
                        assert(self@.rooms =~= Set::empty());
                    }
                }
                assert(text::texts(self.rooms@)[0] == self.rooms@[0]@);
            }
            Some(self.rooms[0].clone())
        }
    }
}

/// What a file remembers: of its rooms those whose names start with an exclamation mark, and the
/// last active room only if it is one of them.
pub proof fn lemma_what_a_file_remembers(rooms: Set<Seq<char>>, last_active: Option<Seq<char>>)
    ensures
        forall|room: Seq<char>| #[trigger]
            remembered(rooms, last_active).rooms.contains(room) <==> rooms.contains(room)
                && room.len() > 0 && room[0] == '!',
        match last_active {
            Some(room) => remembered(rooms, last_active).last_active == if rooms.contains(room)
                && room.len() > 0 && room[0] == '!' {
                Some(room)
            } else {
                None
            },
            None => remembered(rooms, last_active).last_active is None,
        },
{
}

/// A room that is heard from is known and the last active one; what else was known stays known, and
/// nothing else becomes so.
pub proof fn lemma_what_hearing_changes(known: RoomsModel, room: Seq<char>)
    ensures
        forall|other: Seq<char>| #[trigger]
            known.heard_from(room).rooms.contains(other) <==> known.rooms.contains(other) || other
                == room,
        known.heard_from(room).last_active == Some(room),
{
}

/// The rooms that are known are those that are held.
pub proof fn lemma_which_rooms_are_known(known: KnownRooms, room: Seq<char>)
    ensures
        known@.rooms.contains(room) <==> exists|i: int|
            0 <= i < known.held().len() && #[trigger] known.held()[i]@ == room,
        match known.last() {
            Some(last) => known@.last_active == Some(last@),
            None => known@.last_active is None,
        },
{
    let all = text::texts(known.rooms@);
    if all.contains(room) {
        let i = choose|i: int| 0 <= i < all.len() && all[i] == room;
        assert(known.held()[i]@ == room);
    }
    if exists|i: int| 0 <= i < known.held().len() && #[trigger] known.held()[i]@ == room {
        let i = choose|i: int| 0 <= i < known.held().len() && #[trigger] known.held()[i]@ == room;
        assert(all[i] == room);
    }
}

impl KnownRooms {
    /// The rooms as they are held.
    pub closed spec fn held(&self) -> Seq<String> {
        self.rooms@
    }

    /// The last active room as it is held.
    pub closed spec fn last(&self) -> Option<String> {
        self.last_active
    }
}

} // verus!
