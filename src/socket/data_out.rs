use vstd::prelude::*;

verus! {

/// A chat line as sent to a client.
pub struct ChatMessage {
    pub id: String,
    pub from: String,
    pub message: String,
}

/// The current turn queue and presence list of the room.
pub struct PresencesQueueMessage {
    pub queue: Vec<String>,
    pub presences: Vec<String>,
}

/// The answer to a keep-alive ping, echoing its data.
pub struct KeepAlivePong {
    pub data: String,
}

/// A message from the server to one client.
pub enum Message {
    ChatMessage(ChatMessage),
    PresencesQueueMessage(PresencesQueueMessage),
    KeepAlivePong(KeepAlivePong),
    /// The client's own track queue advanced.
    UserQueueChange,
}

} // verus!
