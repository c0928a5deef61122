//! What administrators see of the rooms.

use vstd::prelude::*;

use crate::config::RoomMode;
use crate::room::hub::{open_at, RoomHub};
use crate::room::participant::{Participant, Track, TrackKind};
use crate::room::room::{taken, Room};
use crate::signaling::handler::room_ops::speaker_of;
use crate::signaling::message::text_of;
use crate::text::{hex_string, hex_text};

verus! {

#[derive(Debug)]
pub struct TrackSnapshot {
    pub kind: TrackKind,
    pub ssrc: u32,
    pub track_id: String,
    pub muted: bool,
    pub rtx_ssrc: Option<u32>,
}

#[derive(Debug)]
pub struct ParticipantSnapshot {
    pub user_id: String,
    pub joined_at: u64,
    pub pub_ready: bool,
    pub sub_ready: bool,
    pub tracks: Vec<TrackSnapshot>,
}

#[derive(Debug)]
pub struct PttSnapshot {
    pub floor_speaker: Option<String>,
    /// The SSRCs of the streams, in hexadecimal.
    pub audio_virtual_ssrc: String,
    pub video_virtual_ssrc: String,
}

#[derive(Debug)]
pub struct RoomSnapshot {
    pub room_id: String,
    pub name: String,
    pub capacity: usize,
    pub mode: RoomMode,
    pub simulcast: bool,
    pub created_at: u64,
    pub participants: Vec<ParticipantSnapshot>,
    /// In push-to-talk only.
    pub ptt: Option<PttSnapshot>,
}

/// Whether a snapshot shows a track.
pub open spec fn shows_track(s: TrackSnapshot, t: Track) -> bool {
    &&& s.kind == t.kind
    &&& s.ssrc == t.ssrc
    &&& s.track_id@ == t.track_id@
    &&& s.muted == t.muted
    &&& s.rtx_ssrc == t.rtx_ssrc
}

/// Whether a snapshot shows a participant with all their tracks, in order.
pub open spec fn shows_participant(s: ParticipantSnapshot, p: Participant) -> bool {
    &&& s.user_id@ == p.user_id@
    &&& s.joined_at == p.joined_at
    &&& s.pub_ready == p.publish.ready()
    &&& s.sub_ready == p.subscribe.ready()
    &&& s.tracks@.len() == p.tracks@.len()
    &&& forall|i: int| 0 <= i < s.tracks@.len() ==> shows_track(#[trigger] s.tracks@[i], p.tracks@[i])
}

/// The participants at the first `n` places.
pub open spec fn present(slots: Seq<Option<Participant>>, n: int) -> Seq<Participant>
    decreases n,
{
    if n <= 0 {
        Seq::empty()
    } else if taken(slots, n - 1) {
        present(slots, n - 1).push(slots[n - 1]->0)
    } else {
        present(slots, n - 1)
    }
}

/// Whether a snapshot shows a room with everybody in it, in the order of places.
pub open spec fn shows_room(s: RoomSnapshot, r: Room) -> bool {
    let ps = present(r.slots@, r.slots@.len() as int);
    &&& s.room_id@ == r.id@
    &&& s.name@ == r.name@
    &&& s.capacity == r.capacity
    &&& s.mode == r.mode
    &&& s.simulcast == r.simulcast_enabled
    &&& s.created_at == r.created_at
    &&& s.participants@.len() == ps.len()
    &&& forall|i: int|
        0 <= i < ps.len() ==> shows_participant(#[trigger] s.participants@[i], ps[i])
    &&& match s.ptt {
        Some(x) => {
            &&& r.mode == RoomMode::Ptt
            &&& text_of(x.floor_speaker) == speaker_of(r.floor@)
            &&& x.audio_virtual_ssrc@ == hex_text(r.audio_rewriter@.ssrc)
            &&& x.video_virtual_ssrc@ == hex_text(r.video_rewriter@.ssrc)
        },
        None => r.mode != RoomMode::Ptt,
    }
}

/// The rooms at the first `n` places.
pub open spec fn open_rooms(slots: Seq<Option<Room>>, n: int) -> Seq<Room>
    decreases n,
{
    if n <= 0 {
        Seq::empty()
    } else if open_at(slots, n - 1) {
        open_rooms(slots, n - 1).push(slots[n - 1]->0)
    } else {
        open_rooms(slots, n - 1)
    }
}

fn track_snapshots(tracks: &Vec<Track>) -> (r: Vec<TrackSnapshot>)
    ensures
        r@.len() == tracks@.len(),
        forall|i: int| 0 <= i < r@.len() ==> shows_track(#[trigger] r@[i], tracks@[i]),
{
    let mut out: Vec<TrackSnapshot> = Vec::new();
    let mut i: usize = 0;
    while i < tracks.len()
        invariant
            i <= tracks@.len(),
            out@.len() == i,
            forall|k: int| 0 <= k < i ==> shows_track(#[trigger] out@[k], tracks@[k]),
        decreases tracks@.len() - i,
    {
        let t = &tracks[i];
        out.push(
            TrackSnapshot {
                kind: t.kind,
                ssrc: t.ssrc,
                track_id: t.track_id.clone(),
                muted: t.muted,
                rtx_ssrc: t.rtx_ssrc,
            },
        );
        i += 1;
    }
    out
}

fn room_snapshot(room: &Room) -> (r: RoomSnapshot)
    ensures
        shows_room(r, *room),
{
    let mut participants: Vec<ParticipantSnapshot> = Vec::new();
    let mut i: usize = 0;
    while i < room.slots.len()
        invariant
            i <= room.slots@.len(),
            participants@.len() == present(room.slots@, i as int).len(),
            forall|k: int|
                0 <= k < participants@.len() ==> shows_participant(
                    #[trigger] participants@[k],
                    present(room.slots@, i as int)[k],
                ),
        decreases room.slots@.len() - i,
    {
        if let Some(p) = &room.slots[i] {
            participants.push(
                ParticipantSnapshot {
                    user_id: p.user_id.clone(),
                    joined_at: p.joined_at,
                    pub_ready: p.is_publish_ready(),
                    sub_ready: p.is_subscribe_ready(),
                    tracks: track_snapshots(&p.tracks),
                },
            );
        }
        i += 1;
    }
    let ptt: Option<PttSnapshot> = if room.mode == RoomMode::Ptt {
        Some(
            PttSnapshot {
                floor_speaker: room.floor.current_speaker(),
                audio_virtual_ssrc: hex_string(room.audio_rewriter.virtual_ssrc()),
                video_virtual_ssrc: hex_string(room.video_rewriter.virtual_ssrc()),
            },
        )
    } else {
        None
    };
    RoomSnapshot {
        room_id: room.id.clone(),
        name: room.name.clone(),
        capacity: room.capacity,
        mode: room.mode,
        simulcast: room.simulcast_enabled,
        created_at: room.created_at,
        participants,
        ptt,
    }
}

/// All rooms, in the order of places.
pub fn build_rooms_snapshot(hub: &RoomHub) -> (r: Vec<RoomSnapshot>)
    ensures
        ({
            let rooms = open_rooms(hub.slots@, hub.slots@.len() as int);
            &&& r@.len() == rooms.len()
            &&& forall|i: int| 0 <= i < rooms.len() ==> shows_room(#[trigger] r@[i], rooms[i])
        }),
{
    let mut out: Vec<RoomSnapshot> = Vec::new();
    let mut i: usize = 0;
    while i < hub.slots.len()
        invariant
            i <= hub.slots@.len(),
            out@.len() == open_rooms(hub.slots@, i as int).len(),
            forall|k: int|
                0 <= k < out@.len() ==> shows_room(
                    #[trigger] out@[k],
                    open_rooms(hub.slots@, i as int)[k],
                ),
        decreases hub.slots@.len() - i,
    {
        if let Some(room) = &hub.slots[i] {
            out.push(room_snapshot(room));
        }
        i += 1;
    }
    out
}

} // verus!
