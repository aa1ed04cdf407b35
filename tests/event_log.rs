use listening_room::event_log::{EventLog, Subscription};
use listening_room::message::{Message, MessageType};
use listening_room::stream_id::StreamId;

fn chat_text(m: &Message) -> String {
    match &m.data {
        MessageType::MessageChat(c) => c.message.clone(),
        _ => panic!("not a chat entry"),
    }
}

fn chat(text: &str) -> MessageType {
    Message::chat_message("u1".to_string(), text.to_string()).data
}

#[test]
fn late_subscriber_sees_only_new_entries() {
    let mut log = EventLog::new();
    log.append(chat("one"), 100);
    log.append(chat("two"), 100);
    log.append(chat("three"), 101);
    let mut sub = log.subscribe();
    assert!(log.poll(&mut sub, 5).is_empty());
    let fourth = log.append(chat("four"), 102);
    let got = log.poll(&mut sub, 5);
    assert_eq!(got.len(), 1);
    assert_eq!(chat_text(&got[0]), "four");
    assert_eq!(got[0].id, Some(fourth));
    assert_eq!(sub.cursor, Some(fourth));
    assert!(log.poll(&mut sub, 5).is_empty());
}

#[test]
fn appended_ids_increase() {
    let mut log = EventLog::new();
    let a = log.append(chat("a"), 100);
    let b = log.append(chat("b"), 100);
    let c = log.append(chat("c"), 90);
    let d = log.append(chat("d"), 200);
    assert_eq!(a, StreamId { ms: 100, seq: 0 });
    assert_eq!(b, StreamId { ms: 100, seq: 1 });
    assert_eq!(c, StreamId { ms: 100, seq: 2 });
    assert_eq!(d, StreamId { ms: 200, seq: 0 });
}

#[test]
fn poll_hands_out_batches_in_order() {
    let mut log = EventLog::new();
    let mut sub = log.subscribe();
    assert_eq!(sub.cursor, None);
    for i in 0..7u64 {
        log.append(chat(&format!("m{}", i)), 10 + i);
    }
    let first = log.poll(&mut sub, 5);
    let texts: Vec<String> = first.iter().map(chat_text).collect();
    assert_eq!(texts, vec!["m0", "m1", "m2", "m3", "m4"]);
    let second = log.poll(&mut sub, 5);
    let texts: Vec<String> = second.iter().map(chat_text).collect();
    assert_eq!(texts, vec!["m5", "m6"]);
}

#[test]
fn independent_subscribers_each_get_every_entry() {
    let mut log = EventLog::new();
    let mut a = log.subscribe();
    let mut b = log.subscribe();
    log.append(chat("x"), 1);
    assert_eq!(log.poll(&mut a, 5).len(), 1);
    assert_eq!(log.poll(&mut b, 5).len(), 1);
}

#[test]
fn batch_moves_cursor_to_highest_id() {
    let mut sub = Subscription::at_latest(Some(StreamId { ms: 5, seq: 0 }));
    let empty: Vec<(StreamId, Vec<(String, String)>)> = Vec::new();
    assert!(sub.accept_batch(&empty).unwrap().is_empty());
    assert_eq!(sub.cursor, Some(StreamId { ms: 5, seq: 0 }));

    let entry = |t: &str| Message::chat_message("u".to_string(), t.to_string()).to_fields();
    let batch = vec![
        (StreamId { ms: 9, seq: 0 }, entry("a")),
        (StreamId { ms: 10, seq: 3 }, entry("b")),
    ];
    let got = sub.accept_batch(&batch).unwrap();
    assert_eq!(got.len(), 2);
    assert_eq!(chat_text(&got[1]), "b");
    assert_eq!(got[1].id, Some(StreamId { ms: 10, seq: 3 }));
    assert_eq!(sub.cursor, Some(StreamId { ms: 10, seq: 3 }));
}

#[test]
fn batch_with_unreadable_entry_still_moves_cursor() {
    let mut sub = Subscription::at_latest(None);
    let batch = vec![(StreamId { ms: 3, seq: 1 }, vec![("type".to_string(), "Bogus".to_string())])];
    assert_eq!(sub.accept_batch(&batch).err(), Some("Tried to read non existing message data type"));
    assert_eq!(sub.cursor, Some(StreamId { ms: 3, seq: 1 }));
}

#[test]
fn stream_id_text_and_order() {
    let id = StreamId { ms: 1526919030474, seq: 55 };
    assert_eq!(id.to_text(), "1526919030474-55");
    assert_eq!(StreamId::parse("1526919030474-55"), Some(id));
    assert_eq!(StreamId::parse("0-0"), Some(StreamId { ms: 0, seq: 0 }));
    assert_eq!(StreamId::parse("12"), None);
    assert_eq!(StreamId::parse("-1"), None);
    assert_eq!(StreamId::parse("1-"), None);
    assert_eq!(StreamId::parse("1-2-3"), None);
    assert_eq!(StreamId::parse("a-1"), None);
    let top = StreamId { ms: u64::MAX, seq: u64::MAX };
    assert_eq!(StreamId::parse(&top.to_text()), Some(top));
    assert_eq!(StreamId::parse("1-18446744073709551615"), Some(StreamId { ms: 1, seq: u64::MAX }));
    assert_eq!(StreamId::parse("1-18446744073709551616"), None);
    assert_eq!(StreamId::parse("007-1"), Some(StreamId { ms: 7, seq: 1 }));
    assert!(StreamId { ms: 9, seq: 0 }.is_before(&StreamId { ms: 10, seq: 0 }));
    assert!(StreamId { ms: 10, seq: 1 }.is_before(&StreamId { ms: 10, seq: 2 }));
    assert!(!StreamId { ms: 10, seq: 2 }.is_before(&StreamId { ms: 10, seq: 2 }));
}
