//! The context of a track.

use vstd::prelude::*;

use crate::transport::addr::SocketAddress;

verus! {

#[derive(Debug)]
pub struct TrackContext {
    pub ssrc: u32,
    pub participant_id: String,
    pub room_id: String,
    pub kind: TrackKind,
    /// Where the track was last seen to come from.
    pub remote_addr: Option<SocketAddress>,
    pub last_seen: u64,
}

#[derive(Debug, Clone, Copy, PartialEq, Eq, Structural)]
pub enum TrackKind {
    Audio,
    Video,
}

impl TrackContext {
    pub fn new(ssrc: u32, participant_id: String, room_id: String, kind: TrackKind) -> (r: Self)
        ensures
            r == (TrackContext {
                ssrc,
                participant_id,
                room_id,
                kind,
                remote_addr: None,
                last_seen: 0,
            }),
    {
        TrackContext { ssrc, participant_id, room_id, kind, remote_addr: None, last_seen: 0 }
    }

    /// A sign of life.
    pub fn touch(&mut self, ts: u64)
        ensures
            *final(self) == (TrackContext { last_seen: ts, ..*old(self) }),
    {
        self.last_seen = ts;
    }
}

} // verus!
