use listening_room::message::{Message, MessageType};
use listening_room::stream_id::StreamId;

fn id() -> StreamId {
    StreamId { ms: 7, seq: 1 }
}

#[test]
fn chat_message_is_stored_as_flat_fields() {
    let m = Message::chat_message("alice".to_string(), "hello".to_string());
    assert!(m.id.is_none());
    assert_eq!(
        m.to_fields(),
        vec![
            ("type".to_string(), "MessageChat".to_string()),
            ("from".to_string(), "alice".to_string()),
            ("message".to_string(), "hello".to_string()),
        ]
    );
}

#[test]
fn every_kind_round_trips() {
    let all = vec![
        Message::chat_message("a".to_string(), "b".to_string()),
        Message::device_change("u1".to_string()),
        Message::presence_changed(),
        Message::queue_changed(),
        Message::user_queue_changed("u2".to_string()),
    ];
    for m in all {
        let back = Message::from_fields(id(), &m.to_fields()).ok().unwrap();
        assert_eq!(back.id, Some(id()));
        match (&m.data, &back.data) {
            (MessageType::MessageChat(a), MessageType::MessageChat(b)) => {
                assert_eq!(a.from, b.from);
                assert_eq!(a.message, b.message);
            }
            (MessageType::MessageDeviceChange(a), MessageType::MessageDeviceChange(b)) => {
                assert_eq!(a.user_id, b.user_id)
            }
            (MessageType::MessagePresencesChanged, MessageType::MessagePresencesChanged) => {}
            (MessageType::MessageQueueChanged, MessageType::MessageQueueChanged) => {}
            (MessageType::MessageUserQueueChanged(a), MessageType::MessageUserQueueChanged(b)) => {
                assert_eq!(a.user_id, b.user_id)
            }
            _ => panic!("kind changed"),
        }
    }
}

#[test]
fn unreadable_entries_are_reported() {
    let no_type = vec![("from".to_string(), "a".to_string())];
    assert_eq!(Message::from_fields(id(), &no_type).err(), Some("Missing mandatory field"));
    let unknown = vec![("type".to_string(), "Nope".to_string())];
    assert_eq!(
        Message::from_fields(id(), &unknown).err(),
        Some("Tried to read non existing message data type")
    );
    let chat_without_text = vec![
        ("type".to_string(), "MessageChat".to_string()),
        ("from".to_string(), "a".to_string()),
    ];
    assert_eq!(Message::from_fields(id(), &chat_without_text).err(), Some("Missing mandatory field"));
}
