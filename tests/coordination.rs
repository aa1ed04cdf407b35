use listening_room::claim::{RoomClaim, CLAIM_RENEW_MS, CLAIM_TTL_MS};
use listening_room::message::MessageType;
use listening_room::playback::{
    catch_up_offset, cycle_start, requeue_after, cycle_notice, plan_play, rejoin_command, CycleStart, Playing, RoomQueues,
    DEVICE_GUARD_MS, IDLE_DELAY_MS,
};
use listening_room::presence::{
    on_presence_event, presence_activity, presence_effects, reconcile_snapshot, reconcile_presence, PresenceEvent, PresenceEventActivty,
    PresenceLeases, PresenceSet, PRESENCE_RENEW_MS,
};
use listening_room::queue::{TrackQueues, TurnQueue};

fn s(x: &str) -> String {
    x.to_string()
}

#[test]
fn one_of_many_claim_attempts_wins() {
    let mut claim = RoomClaim::new();
    let results: Vec<bool> = (0..8u64).map(|i| claim.try_claim(1000 + i)).collect();
    assert_eq!(results.iter().filter(|w| **w).count(), 1);
    assert!(results[0]);
}

#[test]
fn lapsed_claim_is_taken_renewed_claim_is_kept() {
    let mut claim = RoomClaim::new();
    assert!(claim.try_claim(0));
    assert!(!claim.try_claim(4999));
    assert!(claim.try_claim(5001));

    let mut kept = RoomClaim::new();
    assert!(kept.try_claim(0));
    let mut t = 0;
    while t < 30_000 {
        t += CLAIM_RENEW_MS;
        assert!(kept.renew(t));
        assert!(!kept.try_claim(t + 1));
    }
    assert!(kept.is_held(t + CLAIM_TTL_MS - 1));
    assert!(!kept.is_held(t + CLAIM_TTL_MS));
    assert!(!RoomClaim::new().renew(5));
}

#[test]
fn presence_set_follows_leases() {
    let mut leases = PresenceLeases::new();
    let mut cache = PresenceSet::new();
    let mut turns = TurnQueue::new();
    turns.enqueue_turn(s("a"));
    turns.enqueue_turn(s("b"));

    let mut events = leases.join(&s("a"), 0);
    events.extend(leases.join(&s("b"), 1000));
    assert_eq!(events.len(), 2);
    assert!(leases.join(&s("a"), 2000).is_empty());
    for e in &events {
        on_presence_event(&mut cache, &mut turns, e);
    }
    let mut listed = cache.list();
    listed.sort();
    assert_eq!(listed, vec![s("a"), s("b")]);

    // b stops renewing; a renews every heartbeat.
    leases.renew(&s("a"), 2000 + PRESENCE_RENEW_MS);
    let gone = leases.expire(6500);
    assert_eq!(gone.len(), 1);
    assert_eq!(gone[0].user_id, "b");
    assert_eq!(gone[0].activity, PresenceEventActivty::Leave);
    for e in &gone {
        on_presence_event(&mut cache, &mut turns, e);
    }
    assert_eq!(cache.list(), vec![s("a")]);
    assert_eq!(turns.list_turn(), vec![s("a")]);

    let left = leases.leave(&s("a"));
    assert_eq!(left.len(), 1);
    on_presence_event(&mut cache, &mut turns, &left[0]);
    assert!(cache.list().is_empty());
    assert!(turns.list_turn().is_empty());
}

#[test]
fn presence_rebuilds_from_snapshot() {
    let mut cache = PresenceSet::new();
    cache.add(&s("stale"));
    let note = reconcile_presence(&mut cache, &vec![s("x"), s("y"), s("x")]);
    assert!(matches!(note.data, MessageType::MessagePresencesChanged));
    let mut listed = cache.list();
    listed.sort();
    assert_eq!(listed, vec![s("x"), s("y")]);
}

#[test]
fn keyspace_payloads_map_to_activity() {
    assert_eq!(presence_activity("new"), Some(PresenceEventActivty::Join));
    assert_eq!(presence_activity("del"), Some(PresenceEventActivty::Leave));
    assert_eq!(presence_activity("expired"), Some(PresenceEventActivty::Leave));
    assert_eq!(presence_activity("expire"), None);
}

#[test]
fn presence_join_event_keeps_turns() {
    let mut cache = PresenceSet::new();
    let mut turns = TurnQueue::new();
    turns.enqueue_turn(s("z"));
    let e = PresenceEvent { user_id: s("z"), activity: PresenceEventActivty::Join };
    on_presence_event(&mut cache, &mut turns, &e);
    assert_eq!(turns.list_turn(), vec![s("z")]);
    assert_eq!(cache.list(), vec![s("z")]);
}

#[test]
fn turn_queue_is_fifo() {
    let mut q = TurnQueue::new();
    assert_eq!(q.dequeue_turn(), None);
    q.enqueue_turn(s("a"));
    q.enqueue_turn(s("b"));
    q.enqueue_turn(s("a"));
    q.remove_turn(&s("a"));
    assert_eq!(q.list_turn(), vec![s("b")]);
    q.enqueue_turn(s("c"));
    assert_eq!(q.dequeue_turn(), Some(s("b")));
    assert_eq!(q.dequeue_turn(), Some(s("c")));
    assert_eq!(q.dequeue_turn(), None);
}

#[test]
fn track_queues_are_per_user_fifo() {
    let mut t = TrackQueues::new();
    assert_eq!(t.pop_track(&s("a")), None);
    t.push_track(&s("a"), s("t1"));
    t.push_track(&s("b"), s("t9"));
    t.push_track(&s("a"), s("t2"));
    assert_eq!(t.pop_track(&s("a")), Some(s("t1")));
    assert_eq!(t.pop_track(&s("a")), Some(s("t2")));
    assert_eq!(t.pop_track(&s("a")), None);
    assert_eq!(t.pop_track(&s("b")), Some(s("t9")));
}

fn served(start: CycleStart) -> Option<(String, String)> {
    match start {
        CycleStart::Play { user_id, track_id } => Some((user_id, track_id)),
        _ => None,
    }
}

#[test]
fn turns_go_round_robin() {
    let mut q = RoomQueues::new();
    q.turns.enqueue_turn(s("A"));
    q.turns.enqueue_turn(s("B"));
    q.tracks.push_track(&s("A"), s("a1"));
    q.tracks.push_track(&s("A"), s("a2"));
    q.tracks.push_track(&s("B"), s("b1"));
    q.tracks.push_track(&s("B"), s("b2"));
    assert_eq!(served(q.start_cycle()), Some((s("A"), s("a1"))));
    assert_eq!(q.turns.list_turn(), vec![s("B"), s("A")]);
    assert_eq!(served(q.start_cycle()), Some((s("B"), s("b1"))));
    assert_eq!(served(q.start_cycle()), Some((s("A"), s("a2"))));
    assert_eq!(served(q.start_cycle()), Some((s("B"), s("b2"))));
}

#[test]
fn empty_turns_idle_and_empty_tracks_skip() {
    let mut q = RoomQueues::new();
    let idle = q.start_cycle();
    assert!(matches!(idle, CycleStart::Idle));
    assert!(matches!(cycle_notice(&idle).data, MessageType::MessageQueueChanged));
    q.turns.enqueue_turn(s("A"));
    let skipped = q.start_cycle();
    assert!(matches!(&skipped, CycleStart::Skipped(u) if u == "A"));
    assert!(q.turns.list_turn().is_empty());
    q.turns.enqueue_turn(s("B"));
    q.tracks.push_track(&s("B"), s("t"));
    let play = q.start_cycle();
    match cycle_notice(&play).data {
        MessageType::MessageUserQueueChanged(u) => assert_eq!(u.user_id, "B"),
        _ => panic!("expected the served user's notice"),
    }
}

#[test]
fn play_plan_targets_every_present_user() {
    let plan = plan_play(&s("spotify:track:1"), 1_000, Some(180_000), &vec![s("a"), s("b")]);
    let p = plan.playing.unwrap();
    assert_eq!(p.track_id, "spotify:track:1");
    assert_eq!(p.start_time, 1_000);
    assert_eq!(p.length, 180_000);
    assert_eq!(plan.next_delay_ms, 180_000);
    assert!(matches!(plan.notice.data, MessageType::MessageQueueChanged));
    let users: Vec<String> = plan.commands.iter().map(|c| c.user_id.clone()).collect();
    assert_eq!(users, vec![s("a"), s("b")]);
    assert!(plan.commands.iter().all(|c| c.offset_ms == 0 && c.track_id == "spotify:track:1"));

    let unknown = plan_play(&s("t"), 5, None, &vec![]);
    assert!(unknown.playing.is_none());
    assert_eq!(unknown.next_delay_ms, IDLE_DELAY_MS);
    assert!(unknown.commands.is_empty());
}

#[test]
fn rejoin_resumes_at_offset() {
    let t0: u128 = 1_700_000_000_000;
    let playing = Playing { track_id: s("spotify:track:x"), start_time: t0, length: 180_000 };
    let cmd = rejoin_command(&playing, &s("u1"), t0 + 5_000).unwrap();
    assert_eq!(cmd.offset_ms, 8_000);
    assert_eq!(cmd.user_id, "u1");
    assert_eq!(cmd.track_id, "spotify:track:x");
    assert!(rejoin_command(&playing, &s("u1"), t0 + 178_000).is_none());
    assert_eq!(DEVICE_GUARD_MS, 3_000);
    assert_eq!(catch_up_offset(&playing, t0 + 179_999), Some(179_999));
    assert_eq!(catch_up_offset(&playing, t0 + 180_000), None);
    assert_eq!(catch_up_offset(&playing, t0 - 10), Some(0));
}

#[test]
fn presence_notifications_call_for_effects() {
    let join = presence_effects(&PresenceEvent { user_id: s("u"), activity: PresenceEventActivty::Join });
    assert!(join.joined && !join.leaves_turns);
    assert!(matches!(join.notice.data, MessageType::MessagePresencesChanged));
    let leave = presence_effects(&PresenceEvent { user_id: s("u"), activity: PresenceEventActivty::Leave });
    assert!(!leave.joined && leave.leaves_turns);
}

#[test]
fn playback_record_reads_back_over_full_range() {
    let cases = [(0u128, 0u64), (1_700_000_000_000, 180_000), (u128::MAX, u64::MAX), (10_000_000_000_000_000_000, 1)];
    for (start_time, length) in cases {
        let p = Playing { track_id: s("spotify:track:z"), start_time, length };
        let back = Playing::from_fields(&p.to_fields()).unwrap();
        assert_eq!(back.track_id, "spotify:track:z");
        assert_eq!(back.start_time, start_time);
        assert_eq!(back.length, length);
    }
    let fields = Playing { track_id: s("t"), start_time: 5, length: u64::MAX }.to_fields();
    assert_eq!(fields[2], (s("length"), s("18446744073709551615")));
    let too_long = vec![(s("track_id"), s("t")), (s("start_time"), s("1")), (s("length"), s("18446744073709551616"))];
    assert!(Playing::from_fields(&too_long).is_none());
    let not_a_number = vec![(s("track_id"), s("t")), (s("start_time"), s("x")), (s("length"), s("1"))];
    assert!(Playing::from_fields(&not_a_number).is_none());
    assert!(Playing::from_fields(&vec![]).is_none());
}

#[test]
fn served_user_is_requeued_and_snapshot_is_deduplicated() {
    let play = cycle_start(Some(s("A")), Some(s("t")));
    assert_eq!(requeue_after(&play), Some(s("A")));
    assert_eq!(requeue_after(&cycle_start(Some(s("A")), None)), None);
    assert_eq!(requeue_after(&cycle_start(None, None)), None);
    let r = reconcile_snapshot(&vec![s("x"), s("y"), s("x")]);
    let mut members = r.members.clone();
    members.sort();
    assert_eq!(members, vec![s("x"), s("y")]);
    assert!(matches!(r.notice.data, MessageType::MessagePresencesChanged));
}
