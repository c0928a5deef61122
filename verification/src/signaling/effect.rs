//! What the server has to do for others after a request: messages to send, key
//! frames to ask for, packets to queue.

use vstd::prelude::*;

use crate::room::participant::{kind_ssrc, ssrc_of_kind, Participant, TrackKind};
use crate::room::room::Room;
use crate::signaling::message::{Packet, PacketView};
use crate::text::owned;
use crate::transport::addr::SocketAddress;
use crate::wire::runs;

verus! {

/// When a publisher is asked for a key frame.
#[derive(Debug, Clone, Copy, PartialEq, Eq, Structural)]
pub enum PliSchedule {
    /// Once.
    Once,
    /// At once and after 150 ms.
    Camera,
    /// At once, after 500 ms and after another 1500 ms.
    Floor,
    /// At once, and after 200, 500 and 1500 ms more.
    Layer,
}

/// The pauses of a schedule in milliseconds, each before a request.
pub open spec fn pli_delays(s: PliSchedule) -> Seq<u64> {
    match s {
        PliSchedule::Once => seq![0u64],
        PliSchedule::Camera => seq![0u64, 150],
        PliSchedule::Floor => seq![0u64, 500, 1500],
        PliSchedule::Layer => seq![0u64, 200, 500, 1500],
    }
}

impl PliSchedule {
    /// Whether requests by this schedule take the place of those that are still to
    /// come; a single one stands beside them.
    pub fn replaces(&self) -> (r: bool)
        ensures
            r == (*self != PliSchedule::Once),
    {
        match self {
            PliSchedule::Once => false,
            _ => true,
        }
    }

    pub fn delays(&self) -> (r: Vec<u64>)
        ensures
            r@ == pli_delays(*self),
    {
        let mut v: Vec<u64> = Vec::new();
        v.push(0);
        match self {
            PliSchedule::Once => {},
            PliSchedule::Camera => {
                v.push(150);
            },
            PliSchedule::Floor => {
                v.push(500);
                v.push(1500);
            },
            PliSchedule::Layer => {
                v.push(200);
                v.push(500);
                v.push(1500);
            },
        }
        assert(v@ =~= pli_delays(*self));
        v
    }
}

#[derive(Debug)]
pub enum Effect {
    /// A message to everybody in the room but one.
    ToOthers { exclude: String, packet: Packet },
    /// A message to everybody in the room.
    ToRoom { packet: Packet },
    /// A message to one participant.
    ToUser { user_id: String, packet: Packet },
    /// Key frames are to be asked for.
    PliBurst { user_id: String, ssrc: u32, addr: SocketAddress, schedule: PliSchedule },
    /// Key frames are not to be asked for any more.
    CancelPli { user_id: String },
    /// RTP packets for everybody who is ready to receive.
    RtpToRoom { packets: Vec<Vec<u8>> },
    /// An RTCP packet for everybody who is ready to receive.
    RtcpToRoom { packet: Vec<u8> },
    /// An RTCP packet for one participant, if they are ready to receive.
    RtcpToUser { user_id: String, packet: Vec<u8> },
}

/// What an effect says.
pub enum EffectView {
    ToOthers { exclude: Seq<char>, packet: PacketView },
    ToRoom { packet: PacketView },
    ToUser { user_id: Seq<char>, packet: PacketView },
    PliBurst { user_id: Seq<char>, ssrc: u32, addr: SocketAddress, schedule: PliSchedule },
    CancelPli { user_id: Seq<char> },
    RtpToRoom { packets: Seq<Seq<u8>> },
    RtcpToRoom { packet: Seq<u8> },
    RtcpToUser { user_id: Seq<char>, packet: Seq<u8> },
}

impl View for Effect {
    type V = EffectView;

    open spec fn view(&self) -> EffectView {
        match self {
            Effect::ToOthers { exclude, packet } => EffectView::ToOthers {
                exclude: exclude@,
                packet: packet@,
            },
            Effect::ToRoom { packet } => EffectView::ToRoom { packet: packet@ },
            Effect::ToUser { user_id, packet } => EffectView::ToUser {
                user_id: user_id@,
                packet: packet@,
            },
            Effect::PliBurst { user_id, ssrc, addr, schedule } => EffectView::PliBurst {
                user_id: user_id@,
                ssrc: *ssrc,
                addr: *addr,
                schedule: *schedule,
            },
            Effect::CancelPli { user_id } => EffectView::CancelPli { user_id: user_id@ },
            Effect::RtpToRoom { packets } => EffectView::RtpToRoom { packets: runs(packets@) },
            Effect::RtcpToRoom { packet } => EffectView::RtcpToRoom { packet: packet@ },
            Effect::RtcpToUser { user_id, packet } => EffectView::RtcpToUser {
                user_id: user_id@,
                packet: packet@,
            },
        }
    }
}

pub open spec fn effects_of(v: Seq<Effect>) -> Seq<EffectView> {
    v.map_values(|e: Effect| e@)
}

/// Adds an effect.
pub fn push_effect(out: &mut Vec<Effect>, e: Effect)
    ensures
        effects_of(final(out)@) == effects_of(old(out)@).push(e@),
{
    out.push(e);
    assert(effects_of(out@) =~= effects_of(old(out)@).push(e@));
}

/// Where and on which SSRC a publisher can be asked for a key frame of their
/// video.
pub open spec fn pli_target(p: Participant) -> Option<(u32, SocketAddress)> {
    match (kind_ssrc(p.tracks@, TrackKind::Video), p.publish.address) {
        (Some(ssrc), Some(addr)) => if p.publish.ready() {
            Some((ssrc, addr))
        } else {
            None
        },
        _ => None,
    }
}

pub fn find_pli_target(p: &Participant) -> (r: Option<(u32, SocketAddress)>)
    ensures
        r == pli_target(*p),
{
    if !p.is_publish_ready() {
        return None;
    }
    match (ssrc_of_kind(&p.tracks, TrackKind::Video), p.publish.get_address()) {
        (Some(ssrc), Some(addr)) => Some((ssrc, addr)),
        _ => None,
    }
}

/// A publisher is asked for key frames, if they are in the room and can be asked.
pub open spec fn with_pli(
    out: Seq<EffectView>,
    room: Room,
    user: Seq<char>,
    schedule: PliSchedule,
) -> Seq<EffectView> {
    match room.member(user) {
        Some(p) => match pli_target(p) {
            Some((ssrc, addr)) => out.push(
                EffectView::PliBurst { user_id: user, ssrc, addr, schedule },
            ),
            None => out,
        },
        None => out,
    }
}

pub fn push_pli(out: &mut Vec<Effect>, room: &Room, user: &str, schedule: PliSchedule)
    requires
        room.wf(),
    ensures
        effects_of(final(out)@) == with_pli(effects_of(old(out)@), *room, user@, schedule),
{
    if let Some(p) = room.get_participant(user) {
        if let Some((ssrc, addr)) = find_pli_target(p) {
            push_effect(out, Effect::PliBurst { user_id: owned(user), ssrc, addr, schedule });
        }
    }
}

} // verus!
