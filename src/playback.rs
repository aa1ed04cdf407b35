use vstd::prelude::*;

use crate::fields::{field_value, fields_view, lookup_field};
use crate::message::{EventData, Message};
use crate::stream_id::{
    append_decimal, append_decimal_wide, decimal, digits_value, is_number_upto, lemma_decimal_reads_back,
    parse_decimal, parse_decimal_wide,
};
use crate::queue::{TrackQueues, TurnQueue};
use crate::room::texts;

verus! {

/// Delay before the first playback cycle of a newly owned room.
pub const FIRST_CYCLE_DELAY_MS: u64 = 1000;

/// Delay before the next cycle when nothing could be played.
pub const IDLE_DELAY_MS: u64 = 1000;

/// Wait after a device change before a catch-up command, so that the provider
/// knows the device by then.
pub const DEVICE_GUARD_MS: u64 = 3000;

/// The track a room is playing: which one, since when (ms since the epoch),
/// and for how long (ms).
pub struct Playing {
    pub track_id: String,
    pub start_time: u128,
    pub length: u64,
}

pub open spec fn playing_fields(track_id: Seq<char>, start_time: nat, length: nat) -> Seq<(Seq<char>, Seq<char>)> {
    seq![
        ("track_id"@, track_id),
        ("start_time"@, decimal(start_time)),
        ("length"@, decimal(length)),
    ]
}

/// The number stored under `name`, if it is there and spells at most `max`.
pub open spec fn number_field(f: Seq<(Seq<char>, Seq<char>)>, name: Seq<char>, max: nat) -> Option<nat> {
    match lookup_field(f, name) {
        Some(v) => if is_number_upto(v, max) {
            Some(digits_value(v))
        } else {
            None
        },
        None => None,
    }
}

/// A stored playback record reads back as written.
pub proof fn lemma_playing_fields_read_back(track_id: Seq<char>, start_time: u128, length: u64)
    ensures
        ({
            let f = playing_fields(track_id, start_time as nat, length as nat);
            &&& lookup_field(f, "track_id"@) == Some(track_id)
            &&& number_field(f, "start_time"@, u128::MAX as nat) == Some(start_time as nat)
            &&& number_field(f, "length"@, u64::MAX as nat) == Some(length as nat)
        }),
{
    reveal_strlit("track_id");
    reveal_strlit("start_time");
    reveal_strlit("length");
    reveal_with_fuel(lookup_field, 4);
    lemma_decimal_reads_back(start_time as nat);
    lemma_decimal_reads_back(length as nat);
    let f = playing_fields(track_id, start_time as nat, length as nat);
    assert("start_time"@[0] != "track_id"@[0]);
    assert("length"@ != "track_id"@);
    assert("length"@ != "start_time"@);
    assert(f.drop_first()[0].0 == "start_time"@);
    assert(f.drop_first().drop_first()[0].0 == "length"@);
}

impl Playing {
    /// The record as the flat pairs the store keeps.
    pub fn to_fields(&self) -> (r: Vec<(String, String)>)
        ensures
            fields_view(r@) == playing_fields(
                self.track_id@,
                self.start_time as nat,
                self.length as nat,
            ),
    {
        let mut start = String::new();
        append_decimal_wide(&mut start, self.start_time);
        let mut length = String::new();
        append_decimal(&mut length, self.length);
        let mut args: Vec<(String, String)> = Vec::new();
        args.push((String::from_str("track_id"), self.track_id.clone()));
        args.push((String::from_str("start_time"), start));
        args.push((String::from_str("length"), length));
        assert(fields_view(args@) =~= playing_fields(
            self.track_id@,
            self.start_time as nat,
            self.length as nat,
        ));
        args
    }

    /// Reads a record back; `None` when a field is missing or not a number
    /// (an empty record means nothing is playing).
    pub fn from_fields(fields: &Vec<(String, String)>) -> (r: Option<Playing>)
        ensures
            match r {
                Some(p) => lookup_field(fields_view(fields@), "track_id"@) == Some(p.track_id@)
                    && number_field(fields_view(fields@), "start_time"@, u128::MAX as nat) == Some(p.start_time as nat)
                    && number_field(fields_view(fields@), "length"@, u64::MAX as nat) == Some(p.length as nat),
                None => lookup_field(fields_view(fields@), "track_id"@) is None || number_field(
                    fields_view(fields@),
                    "start_time"@,
                    u128::MAX as nat,
                ) is None || number_field(fields_view(fields@), "length"@, u64::MAX as nat) is None,
            },
    {
        let track_id = match field_value(fields, "track_id") {
            Some(t) => t,
            None => {
                return None;
            },
        };
        let start_time = match field_value(fields, "start_time") {
            Some(v) => match parse_decimal_wide(v.as_str()) {
                Some(n) => n,
                None => {
                    return None;
                },
            },
            None => {
                return None;
            },
        };
        let length = match field_value(fields, "length") {
            Some(v) => match parse_decimal(v.as_str()) {
                Some(n) => n,
                None => {
                    return None;
                },
            },
            None => {
                return None;
            },
        };
        Some(Playing { track_id, start_time, length })
    }
}

/// A command to the music provider: play `track_id` on the device of
/// `user_id`, starting `offset_ms` into the track.
pub struct PlayCommand {
    pub user_id: String,
    pub track_id: String,
    pub offset_ms: u64,
}

/// A room's turn queue and its users' track queues.
pub struct RoomQueues {
    pub turns: TurnQueue,
    pub tracks: TrackQueues,
}

/// How a playback cycle began.
pub enum CycleStart {
    /// Nobody was waiting for a turn.
    Idle,
    /// The user at the head had no track queued: the turn is used up.
    Skipped(String),
    /// The user at the head gets to play their oldest track.
    Play { user_id: String, track_id: String },
}

/// The turn queue after a cycle: the head leaves, and goes back to the tail
/// when it had a track to play.
pub open spec fn turns_after_cycle(turns: Seq<Seq<char>>, head_has_track: bool) -> Seq<Seq<char>> {
    if turns.len() == 0 {
        turns
    } else if head_has_track {
        turns.drop_first().push(turns[0])
    } else {
        turns.drop_first()
    }
}

/// How a cycle begins, given the head taken off the turn queue and the track
/// taken off that user's queue.
pub fn cycle_start(head: Option<String>, track: Option<String>) -> (r: CycleStart)
    ensures
        head is None ==> r is Idle,
        head matches Some(u) ==> match track {
            None => r matches CycleStart::Skipped(v) && v@ == u@,
            Some(t) => r matches CycleStart::Play { user_id, track_id } && user_id@ == u@
                && track_id@ == t@,
        },
{
    match head {
        None => CycleStart::Idle,
        Some(user_id) => match track {
            None => CycleStart::Skipped(user_id),
            Some(track_id) => CycleStart::Play { user_id, track_id },
        },
    }
}

/// Who goes back to the tail of the turn queue after a cycle began: the user
/// who got to play, and nobody otherwise.
pub fn requeue_after(start: &CycleStart) -> (r: Option<String>)
    ensures
        match start {
            CycleStart::Play { user_id, .. } => r matches Some(u) && u@ == user_id@,
            _ => r is None,
        },
{
    match start {
        CycleStart::Play { user_id, .. } => Some(user_id.clone()),
        _ => None,
    }
}

impl RoomQueues {
    pub open spec fn wf(&self) -> bool {
        self.tracks.wf()
    }

    pub fn new() -> (r: RoomQueues)
        ensures
            r.wf(),
            r.turns@ == Seq::<Seq<char>>::empty(),
            forall|u: Seq<char>| r.tracks.tracks(u) == Seq::<Seq<char>>::empty(),
    {
        RoomQueues { turns: TurnQueue::new(), tracks: TrackQueues::new() }
    }

    /// Begins a playback cycle: takes the head of the turn queue and that
    /// user's oldest track; a user who gets to play goes back to the tail.
    pub fn start_cycle(&mut self) -> (r: CycleStart)
        requires
            old(self).wf(),
        ensures
            final(self).wf(),
            old(self).turns@.len() == 0 ==> r is Idle && final(self).turns@ == old(self).turns@,
            old(self).turns@.len() > 0 ==> {
                let head = old(self).turns@[0];
                let queued = old(self).tracks.tracks(head);
                &&& final(self).turns@ == turns_after_cycle(old(self).turns@, queued.len() > 0)
                &&& queued.len() == 0 ==> (r matches CycleStart::Skipped(u) && u@ == head)
                &&& queued.len() > 0 ==> (r matches CycleStart::Play { user_id, track_id }
                    && user_id@ == head && track_id@ == queued[0])
                &&& final(self).tracks.tracks(head) == (if queued.len() > 0 {
                    queued.drop_first()
                } else {
                    queued
                })
            },
            forall|u: Seq<char>|
                old(self).turns@.len() == 0 || u != old(self).turns@[0] ==> #[trigger] final(self).tracks.tracks(u) == old(self).tracks.tracks(u),
    {
        let head = self.turns.dequeue_turn();
        match head {
            None => cycle_start(None, None),
            Some(user) => {
                let track = self.tracks.pop_track(&user);
                let start = cycle_start(Some(user), track);
                match requeue_after(&start) {
                    Some(u) => self.turns.enqueue_turn(u),
                    None => {},
                }
                start
            },
        }
    }
}

/// The note a cycle posts as it begins: the served user's queue advanced, or,
/// when nothing is played, that the queue changed.
pub fn cycle_notice(start: &CycleStart) -> (r: Message)
    ensures
        r.id is None,
        match start {
            CycleStart::Play { user_id, .. } => r.data@ == (EventData::UserQueueChanged {
                user_id: user_id@,
            }),
            _ => r.data@ == EventData::QueueChanged,
        },
{
    match start {
        CycleStart::Play { user_id, .. } => Message::user_queue_changed(user_id.clone()),
        _ => Message::queue_changed(),
    }
}

/// What follows when a track starts: the state to record (when its length is
/// known), the note to post, the commands for every present user, and the
/// delay until the next cycle.
pub struct PlayPlan {
    pub playing: Option<Playing>,
    pub notice: Message,
    pub commands: Vec<PlayCommand>,
    pub next_delay_ms: u64,
}

pub open spec fn command_targets(c: Seq<PlayCommand>) -> Seq<Seq<char>> {
    c.map_values(|p: PlayCommand| p.user_id@)
}

/// Plans the start of `track_id` at `now_ms`, given the length the provider
/// reported (`None` when it could not be had) and the users present.
pub fn plan_play(track_id: &String, now_ms: u128, duration_ms: Option<u64>, present: &Vec<String>) -> (r: PlayPlan)
    ensures
        match duration_ms {
            Some(d) => r.playing matches Some(p) && p.track_id@ == track_id@ && p.start_time
                == now_ms && p.length == d && r.next_delay_ms == d,
            None => r.playing is None && r.next_delay_ms == IDLE_DELAY_MS,
        },
        r.notice.id is None,
        r.notice.data@ == EventData::QueueChanged,
        command_targets(r.commands@) == texts(present@),
        forall|i: int|
            0 <= i < r.commands@.len() ==> (#[trigger] r.commands@[i]).track_id@ == track_id@
                && r.commands@[i].offset_ms == 0,
{
    let mut commands: Vec<PlayCommand> = Vec::new();
    let mut i: usize = 0;
    while i < present.len()
        invariant
            0 <= i <= present.len(),
            command_targets(commands@) == texts(present@.subrange(0, i as int)),
            forall|k: int|
                0 <= k < commands@.len() ==> (#[trigger] commands@[k]).track_id@ == track_id@
                    && commands@[k].offset_ms == 0,
        decreases present.len() - i,
    {
        let ghost prev = commands@;
        commands.push(
            PlayCommand { user_id: present[i].clone(), track_id: track_id.clone(), offset_ms: 0 },
        );
        assert(command_targets(commands@) =~= command_targets(prev).push(present@[i as int]@));
        i = i + 1;
        assert(texts(present@.subrange(0, i as int)) =~= texts(present@.subrange(0, i - 1)).push(
            present@[i - 1]@,
        ));
    }
    assert(present@.subrange(0, i as int) =~= present@);
    let (playing, next_delay_ms) = match duration_ms {
        Some(d) => (Some(Playing { track_id: track_id.clone(), start_time: now_ms, length: d }), d),
        None => (None, IDLE_DELAY_MS),
    };
    PlayPlan { playing, notice: Message::queue_changed(), commands, next_delay_ms }
}

/// How far into the track a device joining at `now` must start, if the track
/// is still playing then.
pub open spec fn catch_up_spec(start: int, length: int, now: int) -> Option<int> {
    if now < start + length {
        Some(if now >= start {
            now - start
        } else {
            0
        })
    } else {
        None
    }
}

/// The offset at which a device that joins at `now_ms` resumes the current
/// track, or `None` when the track has ended.
pub fn catch_up_offset(playing: &Playing, now_ms: u128) -> (r: Option<u64>)
    ensures
        r matches Some(o) ==> catch_up_spec(
            playing.start_time as int,
            playing.length as int,
            now_ms as int,
        ) == Some(o as int),
        r is None ==> catch_up_spec(
            playing.start_time as int,
            playing.length as int,
            now_ms as int,
        ) is None,
{
    if now_ms < playing.start_time {
        Some(0)
    } else {
        let elapsed = now_ms - playing.start_time;
        if elapsed < playing.length as u128 {
            Some(elapsed as u64)
        } else {
            None
        }
    }
}

/// The command that brings the device of `user_id` into the current track,
/// when a device change reported at `event_ms` is acted on after the guard
/// delay.
pub fn rejoin_command(playing: &Playing, user_id: &String, event_ms: u128) -> (r: Option<PlayCommand>)
    requires
        event_ms + DEVICE_GUARD_MS <= u128::MAX,
    ensures
        r matches Some(c) ==> c.user_id@ == user_id@ && c.track_id@ == playing.track_id@ && Some(
            c.offset_ms as int,
        ) == catch_up_spec(
            playing.start_time as int,
            playing.length as int,
            event_ms + DEVICE_GUARD_MS,
        ),
        r is None ==> catch_up_spec(
            playing.start_time as int,
            playing.length as int,
            event_ms + DEVICE_GUARD_MS,
        ) is None,
{
    match catch_up_offset(playing, event_ms + DEVICE_GUARD_MS as u128) {
        Some(offset_ms) => Some(
            PlayCommand { user_id: user_id.clone(), track_id: playing.track_id.clone(), offset_ms },
        ),
        None => None,
    }
}

/// A device that changes `d` ms after a track of length `length` started is
/// sent to `d` plus the guard delay into the track while that is within the
/// track, and to nothing after it.
pub proof fn lemma_rejoin_offset(start: int, length: int, d: int)
    requires
        d >= 0,
        length >= 0,
    ensures
        d + DEVICE_GUARD_MS < length ==> catch_up_spec(start, length, start + d + DEVICE_GUARD_MS)
            == Some(d + DEVICE_GUARD_MS),
        d + DEVICE_GUARD_MS >= length ==> catch_up_spec(start, length, start + d + DEVICE_GUARD_MS)
            is None,
{
}

/// Turns go round: with `a` and then `b` at the head and both holding a
/// track, two cycles serve `a` and then `b`, and leave them at the tail in
/// that order.
pub proof fn lemma_round_robin(a: Seq<char>, b: Seq<char>, rest: Seq<Seq<char>>)
    ensures
        ({
            let turns = seq![a, b] + rest;
            let once = turns_after_cycle(turns, true);
            let twice = turns_after_cycle(once, true);
            &&& turns[0] == a
            &&& once[0] == b
            &&& twice == rest + seq![a, b]
        }),
{
    let turns = seq![a, b] + rest;
    let once = turns_after_cycle(turns, true);
    assert(once =~= (seq![b] + rest).push(a));
    assert(once[0] == b);
    let twice = turns_after_cycle(once, true);
    assert(twice =~= rest + seq![a, b]);
}

} // verus!
