use listening_room::keys::{
    key_auth, key_device, key_messages, key_playing, key_presence, key_presence_keyspace,
    key_presences, key_queue, key_room, key_room_claimed, key_rooms, key_rooms_free,
    key_user_queue, user_of_presence_key,
};
use listening_room::message::{Message, MessageType};
use listening_room::socket::{
    data_in, data_out, on_connect, on_message, relay, snapshot_message, ConnectPlan,
    InboundAction, RelayAction,
};
use listening_room::stream_id::StreamId;

fn s(x: &str) -> String {
    x.to_string()
}

#[test]
fn chat_frame_posts_chat_from_user() {
    let frame = data_in::Message::ChatMessage(data_in::ChatMessage { message: s("hi") });
    match on_message(&s("u1"), frame) {
        InboundAction::Post(m) => match m.data {
            MessageType::MessageChat(c) => {
                assert_eq!(c.from, "u1");
                assert_eq!(c.message, "hi");
            }
            _ => panic!("not a chat"),
        },
        _ => panic!("expected a post"),
    }
}

#[test]
fn other_frames_dispatch() {
    match on_message(&s("u1"), data_in::Message::SetDevice(data_in::SetDevice { device_id: s("d") })) {
        InboundAction::SetDevice { device_id, notice } => {
            assert_eq!(device_id, "d");
            assert!(matches!(notice.data, MessageType::MessageDeviceChange(ref d) if d.user_id == "u1"));
        }
        _ => panic!("expected device binding"),
    }
    match on_message(&s("u1"), data_in::Message::QueueSong(data_in::QueueSong { track_id: s("t") })) {
        InboundAction::QueueTrack { track_id } => assert_eq!(track_id, "t"),
        _ => panic!("expected a queued track"),
    }
    match on_message(&s("u1"), data_in::Message::KeepAlivePing(data_in::KeepAlivePing { data: s("42") })) {
        InboundAction::Reply(data_out::Message::KeepAlivePong(p)) => assert_eq!(p.data, "42"),
        _ => panic!("expected a pong"),
    }
    match on_message(&s("u1"), data_in::Message::JoinQueue) {
        InboundAction::JoinQueue { notice } => {
            assert!(matches!(notice.data, MessageType::MessageQueueChanged))
        }
        _ => panic!("expected joining the queue"),
    }
}

#[test]
fn relay_maps_entries() {
    let mut chat = Message::chat_message(s("a"), s("yo"));
    chat.id = Some(StreamId { ms: 12, seq: 3 });
    match relay(&chat, &s("me")) {
        RelayAction::Send(data_out::Message::ChatMessage(c)) => {
            assert_eq!(c.id, "12-3");
            assert_eq!(c.from, "a");
            assert_eq!(c.message, "yo");
        }
        _ => panic!("expected a chat line"),
    }
    assert!(matches!(relay(&Message::presence_changed(), &s("me")), RelayAction::SendSnapshot));
    assert!(matches!(relay(&Message::queue_changed(), &s("me")), RelayAction::SendSnapshot));
    assert!(matches!(
        relay(&Message::user_queue_changed(s("me")), &s("me")),
        RelayAction::Send(data_out::Message::UserQueueChange)
    ));
    assert!(matches!(relay(&Message::user_queue_changed(s("other")), &s("me")), RelayAction::Skip));
    assert!(matches!(relay(&Message::device_change(s("me")), &s("me")), RelayAction::Skip));
}

#[test]
fn snapshot_carries_queue_and_presences() {
    match snapshot_message(vec![s("a")], vec![s("a"), s("b")]) {
        data_out::Message::PresencesQueueMessage(p) => {
            assert_eq!(p.queue, vec![s("a")]);
            assert_eq!(p.presences, vec![s("a"), s("b")]);
        }
        _ => panic!("expected a snapshot"),
    }
}

#[test]
fn missing_room_gets_system_notice() {
    assert!(matches!(on_connect(&s("lofi"), true), ConnectPlan::Join));
    match on_connect(&s("nope"), false) {
        ConnectPlan::Reject(data_out::Message::ChatMessage(c)) => {
            assert_eq!(c.id, "");
            assert_eq!(c.from, "system");
            assert_eq!(c.message, "Room nope does not exist!");
        }
        _ => panic!("expected a notice"),
    }
}

#[test]
fn store_keys() {
    assert_eq!(key_auth("u"), "u:auth");
    assert_eq!(key_device("u"), "u:device");
    assert_eq!(key_room("r"), "room:r");
    assert_eq!(key_rooms(), "rooms");
    assert_eq!(key_rooms_free(), "rooms_free");
    assert_eq!(key_room_claimed("r"), "room:r:claimed");
    assert_eq!(key_messages("r"), "room:r:messages");
    assert_eq!(key_playing("r"), "room:r:playing");
    assert_eq!(key_presence("r", "u"), "room:r:presence:u");
    assert_eq!(key_presences("r"), "room:r:presences");
    assert_eq!(key_presence_keyspace("r"), "__keyspace*__:room:r:presence:*");
    assert_eq!(key_queue("r"), "room:r:queue");
    assert_eq!(key_user_queue("r", "u"), "room:r:queue:u");
}

#[test]
fn presence_key_names_user() {
    assert_eq!(user_of_presence_key("room:r:presence:spotify:user:1"), "spotify:user:1");
    assert_eq!(
        user_of_presence_key("__keyspace@0__:room:r:presence:u9"),
        "u9"
    );
    assert_eq!(user_of_presence_key("plain"), "plain");
    assert_eq!(user_of_presence_key(":presence:presence:"), "presence:");
}
