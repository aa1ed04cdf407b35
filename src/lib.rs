//! Coordination engine of a shared listening room: room registry, claim
//! leases, presence leases, the per-room event log, turn and track queues,
//! the playback cycle, and the decisions of a client session.


pub mod claim;
pub mod cookie;
pub mod event_log;
pub mod fields;
pub mod keys;
pub mod message;
pub mod playback;
pub mod presence;
pub mod queue;
pub mod room;
pub mod socket;
pub mod spotify;
pub mod stream_id;
