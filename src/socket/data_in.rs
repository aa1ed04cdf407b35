use vstd::prelude::*;

verus! {

/// The playback device the client selected.
pub struct SetDevice {
    pub device_id: String,
}

/// A chat line the client posts.
pub struct ChatMessage {
    pub message: String,
}

/// A track the client adds to its own queue.
pub struct QueueSong {
    pub track_id: String,
}

/// A keep-alive ping with data to echo.
pub struct KeepAlivePing {
    pub data: String,
}

/// A message from a client to the server.
pub enum Message {
    ChatMessage(ChatMessage),
    SetDevice(SetDevice),
    QueueSong(QueueSong),
    KeepAlivePing(KeepAlivePing),
    /// The client wants turns in the room's turn queue.
    JoinQueue,
}

} // verus!
