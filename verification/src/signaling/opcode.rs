//! Operation codes of the signaling protocol. A response carries the code of its
//! request, and requests and responses are paired by `pid`.

use vstd::prelude::*;

verus! {

// --- requests of the client ---
pub const HEARTBEAT: u16 = 1;

pub const IDENTIFY: u16 = 3;

pub const ROOM_LIST: u16 = 9;

pub const ROOM_CREATE: u16 = 10;

pub const ROOM_JOIN: u16 = 11;

pub const ROOM_LEAVE: u16 = 12;

/// Registers the SSRCs of the client's tracks.
pub const PUBLISH_TRACKS: u16 = 15;

/// Which SSRCs the client knows.
pub const TRACKS_ACK: u16 = 16;

pub const MUTE_UPDATE: u16 = 17;

/// The camera has warmed up.
pub const CAMERA_READY: u16 = 18;

pub const MESSAGE: u16 = 20;

pub const TELEMETRY: u16 = 30;

// --- floor control ---
pub const FLOOR_REQUEST: u16 = 40;

pub const FLOOR_RELEASE: u16 = 41;

pub const FLOOR_PING: u16 = 42;

pub const FLOOR_QUEUE_POS: u16 = 43;

/// The whole state of the room.
pub const ROOM_SYNC: u16 = 50;

/// Which simulcast layers the client wants.
pub const SUBSCRIBE_LAYER: u16 = 51;

// --- events of the server ---
pub const HELLO: u16 = 0;

pub const ROOM_EVENT: u16 = 100;

pub const TRACKS_UPDATE: u16 = 101;

pub const TRACK_STATE: u16 = 102;

pub const MESSAGE_EVENT: u16 = 103;

pub const VIDEO_SUSPENDED: u16 = 104;

pub const VIDEO_RESUMED: u16 = 105;

pub const TRACKS_RESYNC: u16 = 106;

pub const ADMIN_TELEMETRY: u16 = 110;

pub const FLOOR_TAKEN: u16 = 141;

pub const FLOOR_IDLE: u16 = 142;

pub const FLOOR_REVOKE: u16 = 143;

} // verus!
