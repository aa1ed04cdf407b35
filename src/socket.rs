use vstd::prelude::*;

pub mod data_in;
pub mod data_out;

use crate::message::{EventData, Message, MessageType};
use crate::room::texts;
use crate::stream_id::id_text;

verus! {

/// What the session does with one client frame.
pub enum InboundAction {
    /// Append this entry to the room's event log.
    Post(Message),
    /// Bind this device to the user, then append the entry.
    SetDevice { device_id: String, notice: Message },
    /// Add this track to the user's track queue.
    QueueTrack { track_id: String },
    /// Put the user on the turn queue, then append the entry.
    JoinQueue { notice: Message },
    /// Answer the client directly, without the event log.
    Reply(data_out::Message),
}

/// Decides what one frame from `user_id` does.
pub fn on_message(user_id: &String, message: data_in::Message) -> (r: InboundAction)
    ensures
        match message {
            data_in::Message::ChatMessage(c) => r matches InboundAction::Post(m) && m.id is None
                && m.data@ == (EventData::Chat { from: user_id@, message: c.message@ }),
            data_in::Message::SetDevice(d) => r matches InboundAction::SetDevice {
                device_id,
                notice,
            } && device_id@ == d.device_id@ && notice.id is None && notice.data@
                == (EventData::DeviceChanged { user_id: user_id@ }),
            data_in::Message::QueueSong(q) => r matches InboundAction::QueueTrack { track_id }
                && track_id@ == q.track_id@,
            data_in::Message::KeepAlivePing(p) => r matches InboundAction::Reply(
                data_out::Message::KeepAlivePong(pong),
            ) && pong.data@ == p.data@,
            data_in::Message::JoinQueue => r matches InboundAction::JoinQueue { notice }
                && notice.id is None && notice.data@ == EventData::QueueChanged,
        },
{
    match message {
        data_in::Message::ChatMessage(c) => InboundAction::Post(
            Message::chat_message(user_id.clone(), c.message),
        ),
        data_in::Message::SetDevice(d) => InboundAction::SetDevice {
            device_id: d.device_id,
            notice: Message::device_change(user_id.clone()),
        },
        data_in::Message::QueueSong(q) => InboundAction::QueueTrack { track_id: q.track_id },
        data_in::Message::KeepAlivePing(p) => InboundAction::Reply(
            data_out::Message::KeepAlivePong(data_out::KeepAlivePong { data: p.data }),
        ),
        data_in::Message::JoinQueue => InboundAction::JoinQueue { notice: Message::queue_changed() },
    }
}

/// What the outbound relay does with one event-log entry.
pub enum RelayAction {
    /// Send this to the client.
    Send(data_out::Message),
    /// Fetch the current turn queue and presence list and send them.
    SendSnapshot,
    /// Nothing for this client.
    Skip,
}

/// The id as sent to clients: its text, or empty for an entry without one.
pub open spec fn wire_id(m: Message) -> Seq<char> {
    match m.id {
        Some(id) => id_text(id),
        None => Seq::empty(),
    }
}

/// Decides what the relay of `me` sends for one entry of the event log.
pub fn relay(entry: &Message, me: &String) -> (r: RelayAction)
    ensures
        match entry.data@ {
            EventData::Chat { from, message } => r matches RelayAction::Send(
                data_out::Message::ChatMessage(c),
            ) && c.id@ == wire_id(*entry) && c.from@ == from && c.message@ == message,
            EventData::PresencesChanged => r is SendSnapshot,
            EventData::QueueChanged => r is SendSnapshot,
            EventData::UserQueueChanged { user_id } => if user_id == me@ {
                r matches RelayAction::Send(data_out::Message::UserQueueChange)
            } else {
                r is Skip
            },
            EventData::DeviceChanged { .. } => r is Skip,
        },
{
    match &entry.data {
        MessageType::MessageChat(c) => {
            let id = match entry.id {
                Some(id) => id.to_text(),
                None => String::new(),
            };
            RelayAction::Send(
                data_out::Message::ChatMessage(
                    data_out::ChatMessage { id, from: c.from.clone(), message: c.message.clone() },
                ),
            )
        },
        MessageType::MessagePresencesChanged => RelayAction::SendSnapshot,
        MessageType::MessageQueueChanged => RelayAction::SendSnapshot,
        MessageType::MessageUserQueueChanged(u) => {
            if u.user_id == *me {
                RelayAction::Send(data_out::Message::UserQueueChange)
            } else {
                RelayAction::Skip
            }
        },
        MessageType::MessageDeviceChange(_) => RelayAction::Skip,
    }
}

/// The snapshot message of the room's turn queue and presence list.
pub fn snapshot_message(queue: Vec<String>, presences: Vec<String>) -> (r: data_out::Message)
    ensures
        r matches data_out::Message::PresencesQueueMessage(p) && texts(p.queue@) == texts(queue@)
            && texts(p.presences@) == texts(presences@),
{
    data_out::Message::PresencesQueueMessage(data_out::PresencesQueueMessage { queue, presences })
}

pub open spec fn missing_room_text(room_id: Seq<char>) -> Seq<char> {
    "Room "@ + room_id + " does not exist!"@
}

/// How a session begins.
pub enum ConnectPlan {
    /// The room exists: offer it for claiming, then run the session's tasks.
    Join,
    /// The room does not exist: send this notice to the client alone and end.
    Reject(data_out::Message),
}

/// Decides how a session to `room_id` begins, given whether the room exists.
pub fn on_connect(room_id: &String, room_exists: bool) -> (r: ConnectPlan)
    ensures
        room_exists ==> r is Join,
        !room_exists ==> (r matches ConnectPlan::Reject(data_out::Message::ChatMessage(c))
            && c.id@.len() == 0 && c.from@ == "system"@ && c.message@ == missing_room_text(
            room_id@,
        )),
{
    if room_exists {
        ConnectPlan::Join
    } else {
        let message = String::from_str("Room ").concat(room_id.as_str()).concat(" does not exist!");
        ConnectPlan::Reject(
            data_out::Message::ChatMessage(
                data_out::ChatMessage { id: String::new(), from: String::from_str("system"), message },
            ),
        )
    }
}

} // verus!
