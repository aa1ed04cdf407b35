use vstd::prelude::*;

use crate::fields::{field_value, fields_view, lookup_field};

verus! {

/// The pattern every room id must match in full.
pub const ID_PATTERN: &'static str = "^[A-Za-z0-9-]*$";

/// Room ids must be shorter than this many characters.
pub const MAX_ID_CHARS: usize = 32;

/// Room titles must be shorter than this many characters.
pub const MAX_TITLE_CHARS: usize = 64;

/// Whether the `regex` crate finds a match of `pattern` somewhere in `text`;
/// `false` when the pattern does not compile. A pattern anchored with `^` and
/// `$`, as `ID_PATTERN` is, must match the whole text.
pub uninterp spec fn regex_accepts(pattern: Seq<char>, text: Seq<char>) -> bool;

/// Relies on `regex::Regex::new` and `regex::Regex::is_match`: compiles the pattern
/// and reports whether it matches somewhere in the text; a pattern that fails
/// to compile matches nothing.
#[verifier::external_body]
fn pattern_matches(pattern: &str, text: &str) -> (r: bool)
    ensures
        r == regex_accepts(pattern@, text@),
{
    match regex::Regex::new(pattern) {
        Ok(re) => re.is_match(text),
        Err(_) => false,
    }
}

/// A listening room: created once, never changed afterwards.
pub struct Room {
    pub id: String,
    pub title: String,
    pub owner: String,
}

pub struct RoomModel {
    pub id: Seq<char>,
    pub title: Seq<char>,
    pub owner: Seq<char>,
}

impl View for Room {
    type V = RoomModel;

    open spec fn view(&self) -> RoomModel {
        RoomModel { id: self.id@, title: self.title@, owner: self.owner@ }
    }
}

pub open spec fn msg_id_empty() -> Seq<char> {
    "Room id must not be empty."@
}

pub open spec fn msg_id_too_long() -> Seq<char> {
    "Room id must be less than 32 characters long."@
}

pub open spec fn msg_id_reserved(id: Seq<char>) -> Seq<char> {
    "Room id can't be "@ + id + "."@
}

pub open spec fn msg_id_forbidden_char() -> Seq<char> {
    "Room id contains forbidden character."@
}

pub open spec fn msg_title_empty() -> Seq<char> {
    "Room name can't be empty"@
}

pub open spec fn msg_title_too_long() -> Seq<char> {
    "Room title must be less than 64 characters long."@
}

pub open spec fn msg_id_taken(id: Seq<char>) -> Seq<char> {
    "Room id "@ + id + " is already taken."@
}

/// The ids that no room may take.
pub open spec fn is_reserved_id(id: Seq<char>) -> bool {
    id == "new"@
}

pub open spec fn when(cond: bool, msg: Seq<char>) -> Seq<Seq<char>> {
    if cond {
        seq![msg]
    } else {
        seq![]
    }
}

/// Every rule that a room with this id and title breaks, in a fixed order;
/// `id_chars_ok` says whether the id matches `ID_PATTERN`.
pub open spec fn violations(id: Seq<char>, title: Seq<char>, id_chars_ok: bool) -> Seq<Seq<char>> {
    when(id.len() == 0, msg_id_empty()) + when(id.len() >= MAX_ID_CHARS, msg_id_too_long()) + when(
        is_reserved_id(id),
        msg_id_reserved(id),
    ) + when(!id_chars_ok, msg_id_forbidden_char()) + when(title.len() == 0, msg_title_empty())
        + when(title.len() >= MAX_TITLE_CHARS, msg_title_too_long())
}

/// The rules a room breaks, with the character rule decided by the `regex` crate.
pub open spec fn room_violations(room: RoomModel) -> Seq<Seq<char>> {
    violations(room.id, room.title, regex_accepts(ID_PATTERN@, room.id))
}

pub open spec fn texts(v: Seq<String>) -> Seq<Seq<char>> {
    v.map_values(|s: String| s@)
}

fn push_message(errors: &mut Vec<String>, msg: String)
    ensures
        texts(final(errors)@) == texts(old(errors)@).push(msg@),
{
    errors.push(msg);
    assert(texts(errors@) =~= texts(old(errors)@).push(msg@));
}

/// Collects every rule broken by a room with this id and title; `id_chars_ok`
/// is whether the id matches `ID_PATTERN`.
pub fn check_room_fields(id: &String, title: &String, id_chars_ok: bool) -> (errors: Vec<String>)
    ensures
        texts(errors@) == violations(id@, title@, id_chars_ok),
{
    let mut errors: Vec<String> = Vec::new();
    let id_len = id.as_str().unicode_len();
    let title_len = title.as_str().unicode_len();
    let ghost e0 = texts(errors@);
    assert(e0 =~= seq![]);
    if id_len == 0 {
        push_message(&mut errors, String::from_str("Room id must not be empty."));
    }
    assert(texts(errors@) =~= when(id@.len() == 0, msg_id_empty()));
    if id_len >= MAX_ID_CHARS {
        push_message(&mut errors, String::from_str("Room id must be less than 32 characters long."));
    }
    assert(texts(errors@) =~= when(id@.len() == 0, msg_id_empty()) + when(
        id@.len() >= MAX_ID_CHARS,
        msg_id_too_long(),
    ));
    let ghost e2 = texts(errors@);
    let reserved = String::from_str("new");
    if *id == reserved {
        let msg = String::from_str("Room id can't be ").concat(id.as_str()).concat(".");
        push_message(&mut errors, msg);
    }
    assert(texts(errors@) =~= e2 + when(is_reserved_id(id@), msg_id_reserved(id@)));
    let ghost e3 = texts(errors@);
    if !id_chars_ok {
        push_message(&mut errors, String::from_str("Room id contains forbidden character."));
    }
    assert(texts(errors@) =~= e3 + when(!id_chars_ok, msg_id_forbidden_char()));
    let ghost e4 = texts(errors@);
    if title_len == 0 {
        push_message(&mut errors, String::from_str("Room name can't be empty"));
    }
    assert(texts(errors@) =~= e4 + when(title@.len() == 0, msg_title_empty()));
    let ghost e5 = texts(errors@);
    if title_len >= MAX_TITLE_CHARS {
        push_message(
            &mut errors,
            String::from_str("Room title must be less than 64 characters long."),
        );
    }
    assert(texts(errors@) =~= e5 + when(title@.len() >= MAX_TITLE_CHARS, msg_title_too_long()));
    errors
}

impl Room {
    /// Checks every rule on the id and the title and reports all that are broken.
    pub fn validate(&self) -> (r: Result<(), Vec<String>>)
        ensures
            r is Ok <==> room_violations(self@).len() == 0,
            r matches Err(errors) ==> texts(errors@) == room_violations(self@),
    {
        let chars_ok = pattern_matches(ID_PATTERN, self.id.as_str());
        let errors = check_room_fields(&self.id, &self.title, chars_ok);
        if errors.len() == 0 {
            Ok(())
        } else {
            Err(errors)
        }
    }
}

impl Clone for Room {
    fn clone(&self) -> (r: Room)
        ensures
            r@ == self@,
    {
        Room { id: self.id.clone(), title: self.title.clone(), owner: self.owner.clone() }
    }
}

pub open spec fn room_fields(room: RoomModel) -> Seq<(Seq<char>, Seq<char>)> {
    seq![("id"@, room.id), ("title"@, room.title), ("owner"@, room.owner)]
}

impl Room {
    /// The record as the flat `(name, value)` pairs the store keeps.
    pub fn to_fields(&self) -> (r: Vec<(String, String)>)
        ensures
            fields_view(r@) == room_fields(self@),
    {
        let mut args: Vec<(String, String)> = Vec::new();
        args.push((String::from_str("id"), self.id.clone()));
        args.push((String::from_str("title"), self.title.clone()));
        args.push((String::from_str("owner"), self.owner.clone()));
        assert(fields_view(args@) =~= room_fields(self@));
        args
    }

    /// Reads a room back from its stored pairs; `None` stands for a record that
    /// is not there.
    pub fn from_fields(data: Option<Vec<(String, String)>>) -> (r: Result<Room, &'static str>)
        ensures
            data is None ==> r == Err::<Room, &'static str>("Didn't find room with this id"),
            data matches Some(f) ==> {
                let fv = fields_view(f@);
                match r {
                    Ok(room) => lookup_field(fv, "id"@) == Some(room.id@) && lookup_field(
                        fv,
                        "title"@,
                    ) == Some(room.title@) && lookup_field(fv, "owner"@) == Some(room.owner@),
                    Err(e) => if lookup_field(fv, "id"@) is None {
                        e == "Missing id field"
                    } else if lookup_field(fv, "title"@) is None {
                        e == "Missing title field"
                    } else {
                        lookup_field(fv, "owner"@) is None && e == "Missing owner field"
                    },
                }
            },
    {
        match data {
            None => Err("Didn't find room with this id"),
            Some(fields) => {
                let id = match field_value(&fields, "id") {
                    Some(v) => v,
                    None => {
                        return Err("Missing id field");
                    },
                };
                let title = match field_value(&fields, "title") {
                    Some(v) => v,
                    None => {
                        return Err("Missing title field");
                    },
                };
                let owner = match field_value(&fields, "owner") {
                    Some(v) => v,
                    None => {
                        return Err("Missing owner field");
                    },
                };
                Ok(Room { id, title, owner })
            },
        }
    }
}

pub open spec fn room_views(v: Seq<Room>) -> Seq<RoomModel> {
    v.map_values(|r: Room| r@)
}

/// Whether some room in `rooms` has this id.
pub open spec fn has_room(rooms: Seq<RoomModel>, id: Seq<char>) -> bool {
    exists|i: int| 0 <= i < rooms.len() && #[trigger] rooms[i].id == id
}

pub open spec fn ids_unique(rooms: Seq<RoomModel>) -> bool {
    forall|i: int, j: int|
        0 <= i < rooms.len() && 0 <= j < rooms.len() && i != j ==> rooms[i].id != rooms[j].id
}

/// The room with this id, if one was created.
pub open spec fn find_room(rooms: Seq<RoomModel>, id: Seq<char>) -> Option<RoomModel> {
    if has_room(rooms, id) {
        Some(rooms[choose|i: int| 0 <= i < rooms.len() && #[trigger] rooms[i].id == id])
    } else {
        None
    }
}

/// What creating `room` does to the rooms already created, and what it answers:
/// every broken rule; else a single conflict when the id is taken; else the room
/// is added at the end.
pub open spec fn create_spec(rooms: Seq<RoomModel>, room: RoomModel) -> (
    Seq<RoomModel>,
    Result<(), Seq<Seq<char>>>,
) {
    let v = room_violations(room);
    if v.len() > 0 {
        (rooms, Err(v))
    } else if has_room(rooms, room.id) {
        (rooms, Err(seq![msg_id_taken(room.id)]))
    } else {
        (rooms.push(room), Ok(()))
    }
}

pub open spec fn outcome_texts(r: Result<(), Vec<String>>) -> Result<(), Seq<Seq<char>>> {
    match r {
        Ok(()) => Ok(()),
        Err(e) => Err(texts(e@)),
    }
}

/// A create that succeeds keeps ids unique.
pub proof fn lemma_create_keeps_ids_unique(rooms: Seq<RoomModel>, room: RoomModel)
    requires
        ids_unique(rooms),
    ensures
        ids_unique(create_spec(rooms, room).0),
{
    let s = create_spec(rooms, room).0;
    if create_spec(rooms, room).1 is Ok {
        assert forall|i: int, j: int|
            0 <= i < s.len() && 0 <= j < s.len() && i != j implies s[i].id != s[j].id by {
            if i == rooms.len() {
                assert(s[j] == rooms[j]);
            } else if j == rooms.len() {
                assert(s[i] == rooms[i]);
            }
        }
    }
}

/// Creating a room whose id is already taken changes nothing: the room first
/// created under that id keeps its fields, and a valid second request is
/// answered with exactly one error, the conflict.
pub proof fn lemma_create_twice(rooms: Seq<RoomModel>, first: RoomModel, second: RoomModel)
    requires
        ids_unique(rooms),
        create_spec(rooms, first).1 is Ok,
        second.id == first.id,
    ensures
        ({
            let after_first = create_spec(rooms, first).0;
            let (after_second, answer) = create_spec(after_first, second);
            &&& after_second == after_first
            &&& find_room(after_second, first.id) == Some(first)
            &&& room_violations(second).len() == 0 ==> answer == Err::<(), Seq<Seq<char>>>(
                seq![msg_id_taken(first.id)],
            )
            &&& answer is Err
        }),
{
    let s1 = create_spec(rooms, first).0;
    lemma_create_keeps_ids_unique(rooms, first);
    let n = rooms.len() as int;
    assert(s1[n] == first);
    assert(has_room(s1, first.id));
    let k = choose|k: int| 0 <= k < s1.len() && #[trigger] s1[k].id == first.id;
    assert(k == n);
}

/// The answer to creating a room whose id is taken.
pub fn id_taken_errors(id: &String) -> (r: Vec<String>)
    ensures
        texts(r@) == seq![msg_id_taken(id@)],
{
    let msg = String::from_str("Room id ").concat(id.as_str()).concat(" is already taken.");
    let mut errors: Vec<String> = Vec::new();
    errors.push(msg);
    assert(texts(errors@) =~= seq![msg_id_taken(id@)]);
    errors
}

/// The registry of rooms, in order of creation, with ids unique.
pub struct RoomRegistry {
    rooms: Vec<Room>,
}

impl View for RoomRegistry {
    type V = Seq<RoomModel>;

    closed spec fn view(&self) -> Seq<RoomModel> {
        room_views(self.rooms@)
    }
}

impl RoomRegistry {
    pub closed spec fn wf(&self) -> bool {
        ids_unique(self@)
    }

    pub fn new() -> (r: RoomRegistry)
        ensures
            r.wf(),
            r@ == Seq::<RoomModel>::empty(),
    {
        let r = RoomRegistry { rooms: Vec::new() };
        assert(r@ =~= Seq::<RoomModel>::empty());
        r
    }

    fn position(&self, id: &String) -> (r: Option<usize>)
        ensures
            r matches Some(i) ==> i < self@.len() && self@[i as int].id == id@,
            r is None ==> !has_room(self@, id@),
    {
        let mut i: usize = 0;
        while i < self.rooms.len()
            invariant
                0 <= i <= self.rooms.len(),
                forall|j: int| 0 <= j < i ==> self@[j].id != id@,
            decreases self.rooms.len() - i,
        {
            if self.rooms[i].id == *id {
                return Some(i);
            }
            i = i + 1;
        }
        None
    }

    /// Whether a room with this id was created.
    pub fn exists_room(&self, id: &String) -> (r: bool)
        ensures
            r == has_room(self@, id@),
    {
        self.position(id).is_some()
    }

    /// The room with this id.
    pub fn get_room(&self, id: &String) -> (r: Option<Room>)
        requires
            self.wf(),
        ensures
            r matches Some(room) ==> find_room(self@, id@) == Some(room@),
            r is None ==> find_room(self@, id@) is None,
    {
        match self.position(id) {
            Some(i) => {
                let ghost k = choose|k: int| 0 <= k < self@.len() && #[trigger] self@[k].id == id@;
                assert(k == i);
                Some(self.rooms[i].clone())
            },
            None => None,
        }
    }

    /// Every room, in order of creation.
    pub fn list_rooms(&self) -> (r: Vec<Room>)
        ensures
            room_views(r@) == self@,
    {
        let mut out: Vec<Room> = Vec::new();
        let mut i: usize = 0;
        while i < self.rooms.len()
            invariant
                0 <= i <= self.rooms.len(),
                room_views(out@) =~= self@.subrange(0, i as int),
            decreases self.rooms.len() - i,
        {
            let c = self.rooms[i].clone();
            assert(self@[i as int] == c@);
            let ghost before = out@;
            out.push(c);
            assert(room_views(out@) =~= room_views(before).push(c@));
            i = i + 1;
            assert(room_views(out@) =~= self@.subrange(0, i as int));
        }
        assert(self@.subrange(0, i as int) =~= self@);
        out
    }

    /// Creates the room once: reports every broken rule, or a single conflict
    /// when the id is taken, and changes nothing in either case.
    pub fn create_room(&mut self, room: Room) -> (r: Result<(), Vec<String>>)
        requires
            old(self).wf(),
        ensures
            final(self).wf(),
            (final(self)@, outcome_texts(r)) == create_spec(old(self)@, room@),
    {
        match room.validate() {
            Err(errors) => Err(errors),
            Ok(()) => {
                if self.exists_room(&room.id) {
                    Err(id_taken_errors(&room.id))
                } else {
                    let ghost before = self@;
                    let ghost m = room@;
                    self.rooms.push(room);
                    assert(self@ =~= before.push(m));
                    proof {
                        lemma_create_keeps_ids_unique(before, m);
                    }
                    Ok(())
                }
            },
        }
    }
}

} // verus!
