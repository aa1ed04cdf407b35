use vstd::prelude::*;

verus! {

/// Where the store keeps each piece of state, by room and user.
pub open spec fn room_key(room_id: Seq<char>) -> Seq<char> {
    "room:"@ + room_id
}

fn join2(a: &str, b: &str) -> (r: String)
    ensures
        r@ == a@ + b@,
{
    String::from_str(a).concat(b)
}

fn join3(a: &str, b: &str, c: &str) -> (r: String)
    ensures
        r@ == a@ + b@ + c@,
{
    String::from_str(a).concat(b).concat(c)
}

/// The tokens of a user.
pub fn key_auth(user_id: &str) -> (r: String)
    ensures
        r@ == user_id@ + ":auth"@,
{
    join2(user_id, ":auth")
}

/// The playback device a user selected.
pub fn key_device(user_id: &str) -> (r: String)
    ensures
        r@ == user_id@ + ":device"@,
{
    join2(user_id, ":device")
}

/// A room's record.
pub fn key_room(room_id: &str) -> (r: String)
    ensures
        r@ == room_key(room_id@),
{
    join2("room:", room_id)
}

/// The set of all room ids.
pub fn key_rooms() -> (r: String)
    ensures
        r@ == "rooms"@,
{
    String::from_str("rooms")
}

/// The list of rooms offered for claiming.
pub fn key_rooms_free() -> (r: String)
    ensures
        r@ == "rooms_free"@,
{
    String::from_str("rooms_free")
}

/// A room's claim record.
pub fn key_room_claimed(room_id: &str) -> (r: String)
    ensures
        r@ == room_key(room_id@) + ":claimed"@,
{
    join3("room:", room_id, ":claimed")
}

/// A room's event log.
pub fn key_messages(room_id: &str) -> (r: String)
    ensures
        r@ == room_key(room_id@) + ":messages"@,
{
    join3("room:", room_id, ":messages")
}

/// A room's playback state.
pub fn key_playing(room_id: &str) -> (r: String)
    ensures
        r@ == room_key(room_id@) + ":playing"@,
{
    join3("room:", room_id, ":playing")
}

/// The presence lease of a user in a room.
pub fn key_presence(room_id: &str, user_id: &str) -> (r: String)
    ensures
        r@ == room_key(room_id@) + ":presence:"@ + user_id@,
{
    join3("room:", room_id, ":presence:").concat(user_id)
}

/// A room's cached presence list.
pub fn key_presences(room_id: &str) -> (r: String)
    ensures
        r@ == room_key(room_id@) + ":presences"@,
{
    join3("room:", room_id, ":presences")
}

/// The pattern of keyspace channels that announce changes to a room's
/// presence leases.
pub fn key_presence_keyspace(room_id: &str) -> (r: String)
    ensures
        r@ == "__keyspace*__:"@ + room_key(room_id@) + ":presence:"@ + "*"@,
{
    let k = key_presence(room_id, "*");
    join2("__keyspace*__:", k.as_str())
}

/// A room's turn queue.
pub fn key_queue(room_id: &str) -> (r: String)
    ensures
        r@ == room_key(room_id@) + ":queue"@,
{
    join3("room:", room_id, ":queue")
}

/// The track queue of a user in a room.
pub fn key_user_queue(room_id: &str, user_id: &str) -> (r: String)
    ensures
        r@ == room_key(room_id@) + ":queue"@ + ":"@ + user_id@,
{
    let q = key_queue(room_id);
    q.concat(":").concat(user_id)
}

/// Whether the marker that separates a presence key's room from its user
/// starts at `p`.
pub open spec fn marker_at(k: Seq<char>, p: int) -> bool {
    0 <= p && p + 10 <= k.len() && k.subrange(p, p + 10) == ":presence:"@
}

/// What follows the last marker found scanning from `p` left to right,
/// matches not overlapping, with `start` the end of the last one found so far.
pub open spec fn split_tail(k: Seq<char>, p: int, start: int) -> Seq<char>
    decreases k.len() - p,
{
    if p < 0 || p + 10 > k.len() {
        k.subrange(start, k.len() as int)
    } else if marker_at(k, p) {
        split_tail(k, p + 10, p + 10)
    } else {
        split_tail(k, p + 1, start)
    }
}

/// The user a presence key names: what follows its last marker, or the whole
/// key when there is none.
pub open spec fn presence_key_user(k: Seq<char>) -> Seq<char> {
    split_tail(k, 0, 0)
}

/// Reads the user id out of a presence key (or a keyspace channel naming one).
pub fn user_of_presence_key(key: &str) -> (r: String)
    ensures
        r@ == presence_key_user(key@),
{
    proof {
        reveal_strlit(":presence:");
    }
    let len = key.unicode_len();
    let marker = String::from_str(":presence:");
    let mut p: usize = 0;
    let mut start: usize = 0;
    while p <= len && len - p >= 10
        invariant
            start <= len == key@.len(),
            p <= len,
            marker@ == ":presence:"@,
            split_tail(key@, 0, 0) == split_tail(key@, p as int, start as int),
        decreases len - p,
    {
        let sub = String::from_str(key.substring_char(p, p + 10));
        if sub == marker {
            start = p + 10;
            p = p + 10;
        } else {
            p = p + 1;
        }
    }
    String::from_str(key.substring_char(start, len))
}

} // verus!
