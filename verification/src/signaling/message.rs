//! Messages of the signaling protocol: requests of the client, and what the
//! server answers and announces.

use vstd::prelude::*;

use crate::config::RoomMode;
use crate::room::participant::TrackKind;
use crate::signaling::handler::helpers::{
    codecs_of, extensions_of, Codec, CodecView, ExtMap,
};
use crate::text::owned;

verus! {

// ---------------------------------------------------------------------------
// Requests
// ---------------------------------------------------------------------------

#[derive(Debug)]
pub struct IdentifyRequest {
    pub token: String,
    pub user_id: Option<String>,
}

#[derive(Debug)]
pub struct RoomCreateRequest {
    pub name: String,
    pub capacity: Option<usize>,
    pub mode: Option<RoomModeField>,
    /// Means something in a conference only.
    pub simulcast: Option<bool>,
}

#[derive(Debug)]
pub struct RoomJoinRequest {
    pub room_id: String,
}

#[derive(Debug)]
pub struct RoomLeaveRequest {
    pub room_id: String,
}

#[derive(Debug)]
pub struct PublishTracksRequest {
    pub tracks: Vec<PublishTrackItem>,
    /// The extension under which the client numbers its packets.
    pub twcc_extmap_id: Option<u8>,
}

#[derive(Debug)]
pub struct PublishTrackItem {
    /// "audio" or "video".
    pub kind: String,
    pub ssrc: u32,
    /// The simulcast layer, "h" or "l".
    pub rid: Option<String>,
}

#[derive(Debug)]
pub struct MuteUpdateRequest {
    pub ssrc: u32,
    pub muted: bool,
}

#[derive(Debug)]
pub struct MessageRequest {
    pub room_id: String,
    pub content: String,
}

#[derive(Debug)]
pub struct CameraReadyRequest {
    pub room_id: String,
}

/// The SSRCs that the client knows, without retransmissions.
#[derive(Debug)]
pub struct TracksAckRequest {
    pub ssrcs: Vec<u32>,
}

#[derive(Debug)]
pub struct FloorRequestMsg {
    pub room_id: String,
    pub priority: Option<u8>,
}

#[derive(Debug)]
pub struct FloorReleaseMsg {
    pub room_id: String,
}

#[derive(Debug)]
pub struct FloorPingMsg {
    pub room_id: String,
}

#[derive(Debug)]
pub struct FloorQueuePosMsg {
    pub room_id: String,
}

#[derive(Debug)]
pub struct SubscribeLayerRequest {
    pub targets: Vec<SubscribeLayerTarget>,
}

#[derive(Debug)]
pub struct SubscribeLayerTarget {
    /// The publisher.
    pub user_id: String,
    /// "h", "l" or "pause".
    pub rid: String,
}

/// The mode that a client asks for.
#[derive(Debug, Clone, Copy, PartialEq, Eq, Structural)]
pub enum RoomModeField {
    Conference,
    Ptt,
}

impl Default for RoomModeField {
    fn default() -> (r: Self)
        ensures
            r == RoomModeField::Conference,
    {
        RoomModeField::Conference
    }
}

impl RoomModeField {
    pub open spec fn config(self) -> RoomMode {
        match self {
            RoomModeField::Conference => RoomMode::Conference,
            RoomModeField::Ptt => RoomMode::Ptt,
        }
    }

    pub fn to_config(&self) -> (r: RoomMode)
        ensures
            r == self.config(),
    {
        match self {
            RoomModeField::Conference => RoomMode::Conference,
            RoomModeField::Ptt => RoomMode::Ptt,
        }
    }
}

// ---------------------------------------------------------------------------
// Answers and events
// ---------------------------------------------------------------------------

#[derive(Debug)]
pub struct HelloEvent {
    pub heartbeat_interval: u64,
}

#[derive(Debug)]
pub struct RoomEventPayload {
    /// "participant_joined" or "participant_left".
    pub event_type: String,
    pub room_id: String,
    pub user_id: Option<String>,
}

#[derive(Debug)]
pub struct TrackInfo {
    /// The publisher; none for a stream of the room.
    pub user_id: Option<String>,
    pub track_id: String,
    pub kind: TrackKind,
    pub ssrc: u32,
    pub rtx_ssrc: Option<u32>,
    pub rid: Option<String>,
    /// A stream of the room, not of a publisher.
    pub is_virtual: bool,
}

/// What a track announcement says.
pub struct TrackView {
    pub user_id: Option<Seq<char>>,
    pub track_id: Seq<char>,
    pub kind: TrackKind,
    pub ssrc: u32,
    pub rtx_ssrc: Option<u32>,
    pub rid: Option<Seq<char>>,
    pub is_virtual: bool,
}

/// An optional text.
pub open spec fn text_of(s: Option<String>) -> Option<Seq<char>> {
    match s {
        Some(t) => Some(t@),
        None => None,
    }
}

impl View for TrackInfo {
    type V = TrackView;

    open spec fn view(&self) -> TrackView {
        TrackView {
            user_id: text_of(self.user_id),
            track_id: self.track_id@,
            kind: self.kind,
            ssrc: self.ssrc,
            rtx_ssrc: self.rtx_ssrc,
            rid: text_of(self.rid),
            is_virtual: self.is_virtual,
        }
    }
}

pub open spec fn tracks_of(v: Seq<TrackInfo>) -> Seq<TrackView> {
    v.map_values(|t: TrackInfo| t@)
}

/// A room in a list.
#[derive(Debug)]
pub struct RoomInfo {
    pub room_id: String,
    pub name: String,
    pub capacity: usize,
    pub mode: RoomMode,
    pub participants: usize,
}

/// What a room entry says.
pub struct RoomInfoView {
    pub room_id: Seq<char>,
    pub name: Seq<char>,
    pub capacity: usize,
    pub mode: RoomMode,
    pub participants: nat,
}

impl View for RoomInfo {
    type V = RoomInfoView;

    open spec fn view(&self) -> RoomInfoView {
        RoomInfoView {
            room_id: self.room_id@,
            name: self.name@,
            capacity: self.capacity,
            mode: self.mode,
            participants: self.participants as nat,
        }
    }
}

pub open spec fn rooms_of(v: Seq<RoomInfo>) -> Seq<RoomInfoView> {
    v.map_values(|r: RoomInfo| r@)
}

/// The streams and the speaker of a push-to-talk room.
#[derive(Debug)]
pub struct PttInfo {
    pub audio_ssrc: u32,
    pub video_ssrc: u32,
    pub speaker: Option<String>,
}

/// All that a client needs after it has joined a room.
#[derive(Debug)]
pub struct JoinInfo {
    pub room_id: String,
    pub mode: RoomMode,
    pub participants: Vec<String>,
    pub publish_ufrag: String,
    pub publish_pwd: String,
    pub subscribe_ufrag: String,
    pub subscribe_pwd: String,
    pub ip: String,
    pub port: u16,
    pub fingerprint: String,
    pub codecs: Vec<Codec>,
    pub extmap: Vec<ExtMap>,
    pub max_bitrate_bps: u64,
    pub tracks: Vec<TrackInfo>,
    pub simulcast: bool,
    pub ptt: Option<PttInfo>,
}

/// What the streams and the speaker of a push-to-talk room are.
pub struct PttView {
    pub audio_ssrc: u32,
    pub video_ssrc: u32,
    pub speaker: Option<Seq<char>>,
}

/// What a client is told after it has joined a room.
pub struct JoinView {
    pub room_id: Seq<char>,
    pub mode: RoomMode,
    pub participants: Seq<Seq<char>>,
    pub publish_ufrag: Seq<char>,
    pub publish_pwd: Seq<char>,
    pub subscribe_ufrag: Seq<char>,
    pub subscribe_pwd: Seq<char>,
    pub ip: Seq<char>,
    pub port: u16,
    pub fingerprint: Seq<char>,
    pub codecs: Seq<CodecView>,
    pub extmap: Seq<(u8, Seq<char>)>,
    pub max_bitrate_bps: u64,
    pub tracks: Seq<TrackView>,
    pub simulcast: bool,
    pub ptt: Option<PttView>,
}

impl View for JoinInfo {
    type V = JoinView;

    open spec fn view(&self) -> JoinView {
        JoinView {
            room_id: self.room_id@,
            mode: self.mode,
            participants: texts_of(self.participants@),
            publish_ufrag: self.publish_ufrag@,
            publish_pwd: self.publish_pwd@,
            subscribe_ufrag: self.subscribe_ufrag@,
            subscribe_pwd: self.subscribe_pwd@,
            ip: self.ip@,
            port: self.port,
            fingerprint: self.fingerprint@,
            codecs: codecs_of(self.codecs@),
            extmap: extensions_of(self.extmap@),
            max_bitrate_bps: self.max_bitrate_bps,
            tracks: tracks_of(self.tracks@),
            simulcast: self.simulcast,
            ptt: match self.ptt {
                Some(x) => Some(
                    PttView {
                        audio_ssrc: x.audio_ssrc,
                        video_ssrc: x.video_ssrc,
                        speaker: text_of(x.speaker),
                    },
                ),
                None => None,
            },
        }
    }
}

/// What the server tells a client.
#[allow(inconsistent_fields)]
#[derive(Debug)]
pub enum Payload {
    Empty,
    Error { code: u16, msg: String },
    Hello(HelloEvent),
    Identified { user_id: String },
    Rooms { rooms: Vec<RoomInfo> },
    RoomCreated {
        room_id: String,
        name: String,
        capacity: usize,
        mode: RoomMode,
        simulcast: bool,
    },
    Joined(JoinInfo),
    Posted { msg_id: String },
    Event(RoomEventPayload),
    Chat { room_id: String, user_id: String, content: String },
    TracksAdded { tracks: Vec<TrackInfo> },
    TracksRemoved { tracks: Vec<TrackInfo> },
    TracksResync { tracks: Vec<TrackInfo> },
    TrackState { user_id: String, ssrc: u32, kind: TrackKind, muted: bool },
    Video { user_id: String, room_id: String },
    Registered { count: usize },
    Synced { synced: bool },
    Muted { ssrc: u32, muted: bool },
    FloorGranted { speaker: String, priority: u8, duration_s: u16 },
    FloorQueued { position: u8, priority: u8, queue_size: u16 },
    FloorTaken { room_id: String, speaker: String, priority: u8 },
    FloorIdle { room_id: String, prev_speaker: String, cause: Option<String> },
    FloorRevoke { room_id: String, cause: String },
    QueuePosition { position: u8, priority: u8, queue_size: usize },
    RoomState {
        room_id: String,
        mode: RoomMode,
        participants: Vec<String>,
        tracks: Vec<TrackInfo>,
        speaker: Option<String>,
    },
}

/// What a payload says.
#[allow(inconsistent_fields)]
pub enum PayloadView {
    Empty,
    Error { code: u16, msg: Seq<char> },
    Hello { heartbeat_interval: u64 },
    Identified { user_id: Seq<char> },
    Rooms { rooms: Seq<RoomInfoView> },
    RoomCreated {
        room_id: Seq<char>,
        name: Seq<char>,
        capacity: usize,
        mode: RoomMode,
        simulcast: bool,
    },
    Joined { info: JoinView },
    Posted { msg_id: Seq<char> },
    Event { event_type: Seq<char>, room_id: Seq<char>, user_id: Option<Seq<char>> },
    Chat { room_id: Seq<char>, user_id: Seq<char>, content: Seq<char> },
    TracksAdded { tracks: Seq<TrackView> },
    TracksRemoved { tracks: Seq<TrackView> },
    TracksResync { tracks: Seq<TrackView> },
    TrackState { user_id: Seq<char>, ssrc: u32, kind: TrackKind, muted: bool },
    Video { user_id: Seq<char>, room_id: Seq<char> },
    Registered { count: usize },
    Synced { synced: bool },
    Muted { ssrc: u32, muted: bool },
    FloorGranted { speaker: Seq<char>, priority: u8, duration_s: u16 },
    FloorQueued { position: u8, priority: u8, queue_size: u16 },
    FloorTaken { room_id: Seq<char>, speaker: Seq<char>, priority: u8 },
    FloorIdle { room_id: Seq<char>, prev_speaker: Seq<char>, cause: Option<Seq<char>> },
    FloorRevoke { room_id: Seq<char>, cause: Seq<char> },
    QueuePosition { position: u8, priority: u8, queue_size: usize },
    RoomState {
        room_id: Seq<char>,
        mode: RoomMode,
        participants: Seq<Seq<char>>,
        tracks: Seq<TrackView>,
        speaker: Option<Seq<char>>,
    },
}

pub open spec fn texts_of(v: Seq<String>) -> Seq<Seq<char>> {
    v.map_values(|s: String| s@)
}

impl View for Payload {
    type V = PayloadView;

    open spec fn view(&self) -> PayloadView {
        match self {
            Payload::Empty => PayloadView::Empty,
            Payload::Error { code, msg } => PayloadView::Error { code: *code, msg: msg@ },
            Payload::Hello(h) => PayloadView::Hello { heartbeat_interval: h.heartbeat_interval },
            Payload::Identified { user_id } => PayloadView::Identified { user_id: user_id@ },
            Payload::Rooms { rooms } => PayloadView::Rooms { rooms: rooms_of(rooms@) },
            Payload::RoomCreated { room_id, name, capacity, mode, simulcast } => {
                PayloadView::RoomCreated {
                    room_id: room_id@,
                    name: name@,
                    capacity: *capacity,
                    mode: *mode,
                    simulcast: *simulcast,
                }
            },
            Payload::Joined(info) => PayloadView::Joined { info: info@ },
            Payload::Posted { msg_id } => PayloadView::Posted { msg_id: msg_id@ },
            Payload::Event(e) => PayloadView::Event {
                event_type: e.event_type@,
                room_id: e.room_id@,
                user_id: text_of(e.user_id),
            },
            Payload::Chat { room_id, user_id, content } => PayloadView::Chat {
                room_id: room_id@,
                user_id: user_id@,
                content: content@,
            },
            Payload::TracksAdded { tracks } => PayloadView::TracksAdded {
                tracks: tracks_of(tracks@),
            },
            Payload::TracksRemoved { tracks } => PayloadView::TracksRemoved {
                tracks: tracks_of(tracks@),
            },
            Payload::TracksResync { tracks } => PayloadView::TracksResync {
                tracks: tracks_of(tracks@),
            },
            Payload::TrackState { user_id, ssrc, kind, muted } => PayloadView::TrackState {
                user_id: user_id@,
                ssrc: *ssrc,
                kind: *kind,
                muted: *muted,
            },
            Payload::Video { user_id, room_id } => PayloadView::Video {
                user_id: user_id@,
                room_id: room_id@,
            },
            Payload::Registered { count } => PayloadView::Registered { count: *count },
            Payload::Synced { synced } => PayloadView::Synced { synced: *synced },
            Payload::Muted { ssrc, muted } => PayloadView::Muted { ssrc: *ssrc, muted: *muted },
            Payload::FloorGranted { speaker, priority, duration_s } => PayloadView::FloorGranted {
                speaker: speaker@,
                priority: *priority,
                duration_s: *duration_s,
            },
            Payload::FloorQueued { position, priority, queue_size } => PayloadView::FloorQueued {
                position: *position,
                priority: *priority,
                queue_size: *queue_size,
            },
            Payload::FloorTaken { room_id, speaker, priority } => PayloadView::FloorTaken {
                room_id: room_id@,
                speaker: speaker@,
                priority: *priority,
            },
            Payload::FloorIdle { room_id, prev_speaker, cause } => PayloadView::FloorIdle {
                room_id: room_id@,
                prev_speaker: prev_speaker@,
                cause: text_of(*cause),
            },
            Payload::FloorRevoke { room_id, cause } => PayloadView::FloorRevoke {
                room_id: room_id@,
                cause: cause@,
            },
            Payload::QueuePosition { position, priority, queue_size } => {
                PayloadView::QueuePosition {
                    position: *position,
                    priority: *priority,
                    queue_size: *queue_size,
                }
            },
            Payload::RoomState { room_id, mode, participants, tracks, speaker } => {
                PayloadView::RoomState {
                    room_id: room_id@,
                    mode: *mode,
                    participants: texts_of(participants@),
                    tracks: tracks_of(tracks@),
                    speaker: text_of(*speaker),
                }
            },
        }
    }
}

/// A message on the signaling connection: an event or request where `ok` is
/// absent, a response where it is present.
#[derive(Debug)]
pub struct Packet {
    pub op: u16,
    pub pid: u64,
    pub ok: Option<bool>,
    pub d: Payload,
}

/// What a message says.
pub struct PacketView {
    pub op: u16,
    pub pid: u64,
    pub ok: Option<bool>,
    pub d: PayloadView,
}

impl View for Packet {
    type V = PacketView;

    open spec fn view(&self) -> PacketView {
        PacketView { op: self.op, pid: self.pid, ok: self.ok, d: self.d@ }
    }
}

/// An event.
pub open spec fn event(op: u16, d: PayloadView) -> PacketView {
    PacketView { op, pid: 0, ok: None, d }
}

/// A response that the request was done.
pub open spec fn done(op: u16, pid: u64, d: PayloadView) -> PacketView {
    PacketView { op, pid, ok: Some(true), d }
}

/// A response that the request was refused.
pub open spec fn refused(op: u16, pid: u64, code: u16, msg: Seq<char>) -> PacketView {
    PacketView { op, pid, ok: Some(false), d: PayloadView::Error { code, msg } }
}

impl Packet {
    pub fn new(op: u16, pid: u64, d: Payload) -> (r: Self)
        ensures
            r@ == (PacketView { op, pid, ok: None, d: d@ }),
    {
        Packet { op, pid, ok: None, d }
    }

    pub fn ok(op: u16, pid: u64, d: Payload) -> (r: Self)
        ensures
            r@ == done(op, pid, d@),
    {
        Packet { op, pid, ok: Some(true), d }
    }

    pub fn err(op: u16, pid: u64, code: u16, msg: &str) -> (r: Self)
        ensures
            r@ == refused(op, pid, code, msg@),
    {
        Packet { op, pid, ok: Some(false), d: Payload::Error { code, msg: owned(msg) } }
    }

    pub fn is_response(&self) -> (r: bool)
        ensures
            r == (self@.ok is Some),
    {
        self.ok.is_some()
    }
}

} // verus!
