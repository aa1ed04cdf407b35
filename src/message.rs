use vstd::prelude::*;

use crate::fields::{field_value, fields_view, lookup_field};
use crate::stream_id::StreamId;

verus! {

pub struct MessageChat {
    pub from: String,
    pub message: String,
}

pub struct MessageDeviceChange {
    pub user_id: String,
}

pub struct MessageUserQueueChange {
    pub user_id: String,
}

/// What an event-log entry says.
pub enum MessageType {
    /// A chat line posted by a user.
    MessageChat(MessageChat),
    /// Presence changed: readers fetch the current presence and queue again.
    MessagePresencesChanged,
    /// The turn queue changed: readers fetch the current presence and queue again.
    MessageQueueChanged,
    /// The named user's own track queue advanced.
    MessageUserQueueChanged(MessageUserQueueChange),
    /// The named user selected a playback device.
    MessageDeviceChange(MessageDeviceChange),
}

/// An event-log entry; `id` is given by the store on append.
pub struct Message {
    pub id: Option<StreamId>,
    pub data: MessageType,
}

pub enum EventData {
    Chat { from: Seq<char>, message: Seq<char> },
    PresencesChanged,
    QueueChanged,
    UserQueueChanged { user_id: Seq<char> },
    DeviceChanged { user_id: Seq<char> },
}

impl View for MessageType {
    type V = EventData;

    open spec fn view(&self) -> EventData {
        match self {
            MessageType::MessageChat(c) => EventData::Chat { from: c.from@, message: c.message@ },
            MessageType::MessagePresencesChanged => EventData::PresencesChanged,
            MessageType::MessageQueueChanged => EventData::QueueChanged,
            MessageType::MessageUserQueueChanged(u) => EventData::UserQueueChanged {
                user_id: u.user_id@,
            },
            MessageType::MessageDeviceChange(d) => EventData::DeviceChanged { user_id: d.user_id@ },
        }
    }
}

impl Clone for MessageType {
    fn clone(&self) -> (r: MessageType)
        ensures
            r@ == self@,
    {
        match self {
            MessageType::MessageChat(c) => MessageType::MessageChat(
                MessageChat { from: c.from.clone(), message: c.message.clone() },
            ),
            MessageType::MessagePresencesChanged => MessageType::MessagePresencesChanged,
            MessageType::MessageQueueChanged => MessageType::MessageQueueChanged,
            MessageType::MessageUserQueueChanged(u) => MessageType::MessageUserQueueChanged(
                MessageUserQueueChange { user_id: u.user_id.clone() },
            ),
            MessageType::MessageDeviceChange(d) => MessageType::MessageDeviceChange(
                MessageDeviceChange { user_id: d.user_id.clone() },
            ),
        }
    }
}

impl Clone for Message {
    fn clone(&self) -> (r: Message)
        ensures
            r.id == self.id,
            r.data@ == self.data@,
    {
        Message { id: self.id, data: self.data.clone() }
    }
}

/// The flat pairs an entry is stored as: its kind under `type`, then its payload.
pub open spec fn event_fields(d: EventData) -> Seq<(Seq<char>, Seq<char>)> {
    match d {
        EventData::Chat { from, message } => seq![
            ("type"@, "MessageChat"@),
            ("from"@, from),
            ("message"@, message),
        ],
        EventData::PresencesChanged => seq![("type"@, "MessagePresencesChanged"@)],
        EventData::QueueChanged => seq![("type"@, "MessageQueueChanged"@)],
        EventData::UserQueueChanged { user_id } => seq![
            ("type"@, "MessageUserQueueChanged"@),
            ("user_id"@, user_id),
        ],
        EventData::DeviceChanged { user_id } => seq![
            ("type"@, "MessageDeviceChange"@),
            ("user_id"@, user_id),
        ],
    }
}

pub open spec fn need(v: Option<Seq<char>>) -> Result<Seq<char>, &'static str> {
    match v {
        Some(x) => Ok(x),
        None => Err("Missing mandatory field"),
    }
}

/// What a stored entry says, or why it cannot be read.
pub open spec fn decode_spec(f: Seq<(Seq<char>, Seq<char>)>) -> Result<EventData, &'static str> {
    match need(lookup_field(f, "type"@)) {
        Err(e) => Err(e),
        Ok(t) => if t == "MessageChat"@ {
            match need(lookup_field(f, "from"@)) {
                Err(e) => Err(e),
                Ok(from) => match need(lookup_field(f, "message"@)) {
                    Err(e) => Err(e),
                    Ok(message) => Ok(EventData::Chat { from, message }),
                },
            }
        } else if t == "MessagePresencesChanged"@ {
            Ok(EventData::PresencesChanged)
        } else if t == "MessageQueueChanged"@ {
            Ok(EventData::QueueChanged)
        } else if t == "MessageUserQueueChanged"@ {
            match need(lookup_field(f, "user_id"@)) {
                Err(e) => Err(e),
                Ok(user_id) => Ok(EventData::UserQueueChanged { user_id }),
            }
        } else if t == "MessageDeviceChange"@ {
            match need(lookup_field(f, "user_id"@)) {
                Err(e) => Err(e),
                Ok(user_id) => Ok(EventData::DeviceChanged { user_id }),
            }
        } else {
            Err("Tried to read non existing message data type")
        },
    }
}

/// Reading back what was written gives the same entry.
pub proof fn lemma_fields_round_trip(d: EventData)
    ensures
        decode_spec(event_fields(d)) == Ok::<EventData, &'static str>(d),
{
    reveal_strlit("type");
    reveal_strlit("from");
    reveal_strlit("message");
    reveal_strlit("user_id");
    reveal_strlit("MessageChat");
    reveal_strlit("MessagePresencesChanged");
    reveal_strlit("MessageQueueChanged");
    reveal_strlit("MessageUserQueueChanged");
    reveal_strlit("MessageDeviceChange");
    let f = event_fields(d);
    reveal_with_fuel(lookup_field, 4);
    match d {
        EventData::Chat { from, message } => {
            assert(f.drop_first()[0].0 == "from"@);
            assert(f.drop_first().drop_first()[0].0 == "message"@);
            assert("from"@[0] != "type"@[0]);
            assert("message"@ != "type"@);
            assert("message"@ != "from"@);
        },
        EventData::UserQueueChanged { user_id } => {
            assert(f.drop_first()[0].0 == "user_id"@);
            assert("user_id"@ != "type"@);
            assert("MessageUserQueueChanged"@[7] != "MessageChat"@[7]);
            assert("MessageUserQueueChanged"@[7] != "MessagePresencesChanged"@[7]);
            assert("MessageUserQueueChanged"@ != "MessageQueueChanged"@);
        },
        EventData::DeviceChanged { user_id } => {
            assert(f.drop_first()[0].0 == "user_id"@);
            assert("user_id"@ != "type"@);
            assert("MessageDeviceChange"@[7] != "MessageChat"@[7]);
            assert("MessageDeviceChange"@[7] != "MessagePresencesChanged"@[7]);
            assert("MessageDeviceChange"@ != "MessageQueueChanged"@);
            assert("MessageDeviceChange"@ != "MessageUserQueueChanged"@);
        },
        EventData::PresencesChanged => {
            assert("MessagePresencesChanged"@[7] != "MessageChat"@[7]);
        },
        EventData::QueueChanged => {
            assert("MessageQueueChanged"@[7] != "MessageChat"@[7]);
            assert("MessageQueueChanged"@[7] != "MessagePresencesChanged"@[7]);
        },
    }
}

fn pair(name: &str, value: String) -> (r: (String, String))
    ensures
        r.0@ == name@,
        r.1@ == value@,
{
    (String::from_str(name), value)
}

fn need_field(fields: &Vec<(String, String)>, name: &str) -> (r: Result<String, &'static str>)
    ensures
        match r {
            Ok(v) => need(lookup_field(fields_view(fields@), name@)) == Ok::<Seq<char>, &'static str>(v@),
            Err(e) => need(lookup_field(fields_view(fields@), name@)) == Err::<Seq<char>, &'static str>(e),
        },
{
    match field_value(fields, name) {
        Some(v) => Ok(v),
        None => Err("Missing mandatory field"),
    }
}

impl Message {
    /// A chat line from `from`.
    pub fn chat_message(from: String, message: String) -> (r: Message)
        ensures
            r.id is None,
            r.data@ == (EventData::Chat { from: from@, message: message@ }),
    {
        Message { id: None, data: MessageType::MessageChat(MessageChat { from, message }) }
    }

    /// The note that `user_id` selected a playback device.
    pub fn device_change(user_id: String) -> (r: Message)
        ensures
            r.id is None,
            r.data@ == (EventData::DeviceChanged { user_id: user_id@ }),
    {
        Message { id: None, data: MessageType::MessageDeviceChange(MessageDeviceChange { user_id }) }
    }

    /// The note that presence changed.
    pub fn presence_changed() -> (r: Message)
        ensures
            r.id is None,
            r.data@ == EventData::PresencesChanged,
    {
        Message { id: None, data: MessageType::MessagePresencesChanged }
    }

    /// The note that the turn queue changed.
    pub fn queue_changed() -> (r: Message)
        ensures
            r.id is None,
            r.data@ == EventData::QueueChanged,
    {
        Message { id: None, data: MessageType::MessageQueueChanged }
    }

    /// The note that the track queue of `user_id` advanced.
    pub fn user_queue_changed(user_id: String) -> (r: Message)
        ensures
            r.id is None,
            r.data@ == (EventData::UserQueueChanged { user_id: user_id@ }),
    {
        Message {
            id: None,
            data: MessageType::MessageUserQueueChanged(MessageUserQueueChange { user_id }),
        }
    }

    /// The entry as the flat pairs the store keeps.
    pub fn to_fields(&self) -> (r: Vec<(String, String)>)
        ensures
            fields_view(r@) == event_fields(self.data@),
    {
        let mut args: Vec<(String, String)> = Vec::new();
        match &self.data {
            MessageType::MessageChat(c) => {
                args.push(pair("type", String::from_str("MessageChat")));
                args.push(pair("from", c.from.clone()));
                args.push(pair("message", c.message.clone()));
            },
            MessageType::MessagePresencesChanged => {
                args.push(pair("type", String::from_str("MessagePresencesChanged")));
            },
            MessageType::MessageQueueChanged => {
                args.push(pair("type", String::from_str("MessageQueueChanged")));
            },
            MessageType::MessageUserQueueChanged(u) => {
                args.push(pair("type", String::from_str("MessageUserQueueChanged")));
                args.push(pair("user_id", u.user_id.clone()));
            },
            MessageType::MessageDeviceChange(d) => {
                args.push(pair("type", String::from_str("MessageDeviceChange")));
                args.push(pair("user_id", d.user_id.clone()));
            },
        }
        assert(fields_view(args@) =~= event_fields(self.data@));
        args
    }

    /// Reads a stored entry with the id the store gave it.
    pub fn from_fields(id: StreamId, fields: &Vec<(String, String)>) -> (r: Result<
        Message,
        &'static str,
    >)
        ensures
            match r {
                Ok(m) => m.id == Some(id) && decode_spec(fields_view(fields@)) == Ok::<
                    EventData,
                    &'static str,
                >(m.data@),
                Err(e) => decode_spec(fields_view(fields@)) == Err::<EventData, &'static str>(e),
            },
    {
        let kind = match need_field(fields, "type") {
            Ok(k) => k,
            Err(e) => {
                return Err(e);
            },
        };
        let data = if kind == String::from_str("MessageChat") {
            let from = match need_field(fields, "from") {
                Ok(v) => v,
                Err(e) => {
                    return Err(e);
                },
            };
            let message = match need_field(fields, "message") {
                Ok(v) => v,
                Err(e) => {
                    return Err(e);
                },
            };
            MessageType::MessageChat(MessageChat { from, message })
        } else if kind == String::from_str("MessagePresencesChanged") {
            MessageType::MessagePresencesChanged
        } else if kind == String::from_str("MessageQueueChanged") {
            MessageType::MessageQueueChanged
        } else if kind == String::from_str("MessageUserQueueChanged") {
            let user_id = match need_field(fields, "user_id") {
                Ok(v) => v,
                Err(e) => {
                    return Err(e);
                },
            };
            MessageType::MessageUserQueueChanged(MessageUserQueueChange { user_id })
        } else if kind == String::from_str("MessageDeviceChange") {
            let user_id = match need_field(fields, "user_id") {
                Ok(v) => v,
                Err(e) => {
                    return Err(e);
                },
            };
            MessageType::MessageDeviceChange(MessageDeviceChange { user_id })
        } else {
            return Err("Tried to read non existing message data type");
        };
        Ok(Message { id: Some(id), data })
    }
}

} // verus!
