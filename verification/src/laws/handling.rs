//! Laws of handling what comes in: datagrams of members, and requests of clients.

use vstd::prelude::*;

use crate::config::RoomMode;
use crate::error::{error_code, error_text, LightError};
use crate::laws::lookup::{law_member_by_name, law_track_by_ssrc, with_ssrc};
use crate::room::floor::{after_leave, after_release};
use crate::room::hub::{open_at, RoomHub};
use crate::room::index::{addrs_of, names_of};
use crate::room::participant::{
    after_add_track, is_newcomer, receptions, Participant, PcType, TrackKind,
};
use crate::room::room::{taken, Room, RoomSeed};
use crate::signaling::effect::{effects_of, pli_target, Effect, EffectView};
use crate::signaling::handler::floor_ops::{
    floor_release_handled, floor_request_handled, release_done, request_done, FloorCounts,
    FloorOutcome, FloorTimes,
};
use crate::signaling::handler::helpers::{needs_vssrc, vssrc_missing, vssrcs_given, vssrcs_kept};
use crate::signaling::handler::room_ops::{
    admitted, create_done, farewell_done, is_named, join_view, let_in, wanted_mode, Outcome,
    ServerInfo,
};
use crate::signaling::handler::track_ops::{layers_chosen, published, registry, target_lacks_ssrc};
use crate::signaling::message::{
    FloorRequestMsg, IdentifyRequest, PacketView, PayloadView, PublishTracksRequest,
    RoomCreateRequest, SubscribeLayerTarget,
};
use crate::signaling::session::one_participant_changed;
use crate::text::is_white;
use crate::transport::addr::SocketAddress;
use crate::transport::ice::{ice_char, ice_text, IceCredentials};
use crate::transport::srtp::{
    one_byte_elements, rtp_elements_fit, rtp_parts_fit, srtcp_opened, srtp_opened, srtp_sealed,
    SrtpState,
};
use crate::transport::stun::{binding_response, response_attrs, xor_mapped};
use crate::transport::udp::egress::{
    all_notified, notified, reports_on, sealed_rtp, sealed_to, PublisherNote,
};
use crate::transport::udp::fanout::{is_target, law_targets, targets};
use crate::transport::udp::feedback::{
    feedback_groups, is_kind, publish_rtcp_out, report_source, sealed_rtcp, srs_noted, Feedback,
};
use crate::transport::udp::ingress::{
    blocks_bytes, datagram_handled, feedback_relayed, media_needs_ssrc, packet_opened,
    publish_rtcp_done, publish_rtp_done, reports_need_ssrc, reports_noted, reports_video,
    rtcp_relayed, rtp_relayed, stats_collected, subscribe_rtcp_done, talked, video_report_sent,
    MediaOutcome, Opening, PublishRtcp, RelayedFeedback, RtpRelay, SubscribeRtcp,
};
use crate::transport::udp::rtcp::{
    blocks_of, mbcp_messages, rtp_header, BlockKind, MbcpContent, RtcpBlockRef,
};
use crate::transport::udp::rtcp_terminator::{report_block, Reception, RrReportBlock};
use crate::wire::{be16, be32};

verus! {

// ---------------------------------------------------------------------------
// Opening
// ---------------------------------------------------------------------------

/// Whether a datagram is a control packet, by its second byte.
pub open spec fn looks_like_control(buf: Seq<u8>) -> bool {
    buf.len() >= 2 && (200 <= buf[1] <= 207 || 72 <= buf[1] <= 79)
}

/// What a datagram of a member turns out to be. Nothing is opened on a publishing
/// connection that has no keys, and no media on a receiving one. What is opened is what
/// was sealed. Of the member only the connection that it came by changes, and the count
/// of the media that came in.
pub proof fn law_opening(a: Participant, b: Participant, pc: PcType, buf: Seq<u8>, r: Opening)
    requires
        packet_opened(a, b, pc, buf, r),
    ensures
        pc == PcType::Publish && a.publish.inbound_srtp@ is None ==> r is NotReady,
        pc == PcType::Subscribe && !looks_like_control(buf) ==> r is NotRtcp,
        r is Rtp ==> pc == PcType::Publish && !looks_like_control(buf)
            && a.publish.inbound_srtp@ is Some,
        r is Rtcp ==> looks_like_control(buf) && a.side(pc).inbound_srtp@ is Some,
        r matches Opening::Rtcp(v) ==> srtcp_opened(a.side(pc).inbound_srtp@->0.secret, buf) == (
        Result::<Seq<u8>, Seq<char>>::Ok(v@)),
        r matches Opening::Rtp(v) ==> exists|prior: Option<u64>|
            #[trigger] srtp_opened(a.publish.inbound_srtp@->0.secret, prior, buf) == (Result::<
                Seq<u8>,
                Seq<char>,
            >::Ok(v@)),
        r is Rtp ==> b.pipeline.pub_rtp_in == a.pipeline.pub_rtp_in.wrapping_add(1),
        !(r is Rtp) ==> b.pipeline == a.pipeline && b.side(pc).inbound_srtp@ == a.side(
            pc,
        ).inbound_srtp@,
        pc == PcType::Publish ==> b.subscribe == a.subscribe,
        pc == PcType::Subscribe ==> b.publish == a.publish,
        b.tracks == a.tracks && b.user_id == a.user_id && b.rtp_cache == a.rtp_cache,
        b.publish.outbound_srtp == a.publish.outbound_srtp && b.publish.address
            == a.publish.address,
{
    if let Opening::Rtp(v) = r {
        let s = a.publish.inbound_srtp@->0;
        let prior = crate::transport::srtp::rtp_prior(s, buf);
        assert(srtp_opened(s.secret, prior, buf) == (Result::<Seq<u8>, Seq<char>>::Ok(v@)));
    }
}

/// What is sealed for a publisher can be opened again with the same keys and gives the
/// packet; it is sealed wherever there are keys and the packet is one of control.
pub proof fn law_sealing(
    a: Option<SrtpState>,
    b: Option<SrtpState>,
    plain: Seq<u8>,
    r: Option<Seq<u8>>,
)
    requires
        sealed_rtcp(a, b, plain, r),
    ensures
        r is Some <==> a is Some && plain.len() >= 8 && plain[0] / 64 == 2,
        r matches Some(v) ==> srtcp_opened(a->0.secret, v) == (Result::<Seq<u8>, Seq<char>>::Ok(
            plain,
        )),
        r is Some ==> b is Some && b->0.secret == a->0.secret && b->0.rtp == a->0.rtp,
        r is None ==> b == a,
{
}

/// Media is sealed with the keys of the connection, and the stream that it belongs to
/// goes on; without keys nothing is sent.
pub proof fn law_sealing_media(
    a: Option<SrtpState>,
    b: Option<SrtpState>,
    plain: Seq<u8>,
    r: Option<Seq<u8>>,
)
    requires
        sealed_rtp(a, b, plain, r),
    ensures
        a is None ==> r is None,
        r is None ==> b == a,
        r matches Some(v) ==> exists|prior: Option<u64>| #[trigger]
            srtp_sealed(a->0.secret, prior, plain) == (Result::<Seq<u8>, Seq<char>>::Ok(v)),
        r is Some ==> b is Some && b->0.secret == a->0.secret && b->0.rtcp == a->0.rtcp
            && b->0.rtp.dom().contains(be32(plain, 8)),
        rtp_parts_fit(plain) && a is Some && r is None ==> srtp_sealed(
            a->0.secret,
            crate::transport::srtp::rtp_prior(a->0, plain),
            plain,
        ) is Err,
{
    if let Some(v) = r {
        let prior = crate::transport::srtp::rtp_prior(a->0, plain);
        assert(srtp_sealed(a->0.secret, prior, plain) == (Result::<Seq<u8>, Seq<char>>::Ok(v)));
    }
}

/// A packet without header extension has no elements to be cut off, nor has one whose
/// extension is of neither of the two forms with elements.
pub proof fn law_elements_fit(p: Seq<u8>)
    requires
        p.len() >= 12,
    ensures
        (p[0] / 16) % 2 == 0 ==> rtp_elements_fit(p),
        ({
            let at = 12 + (p[0] % 16) * 4;
            p.len() >= at + 4 && be16(p, at) != 0xBEDE && be16(p, at) != 0x1000
                ==> rtp_elements_fit(p)
        }),
{
}

/// The elements of the one-byte form (RFC 5285): padding is one byte, an element is one
/// byte and one more than the length in it, and the reserved identifier 15 ends them.
pub proof fn law_one_byte_elements(p: Seq<u8>, pos: int, end: int)
    requires
        0 <= pos < end <= p.len(),
    ensures
        p[pos] / 16 == 15 ==> one_byte_elements(p, pos, end) == Some(0int),
        p[pos] == 0 ==> (one_byte_elements(p, pos, end) is Some <==> one_byte_elements(
            p,
            pos + 1,
            end,
        ) is Some),
        p[pos] == 0 && one_byte_elements(p, pos, end) is Some ==> one_byte_elements(p, pos, end)->0
            == 1 + one_byte_elements(p, pos + 1, end)->0,
        p[pos] != 0 && p[pos] / 16 != 15 && pos + 2 + p[pos] % 16 > p.len() ==> one_byte_elements(
            p,
            pos,
            end,
        ) is None,
        p[pos] != 0 && p[pos] / 16 != 15 && pos + 2 + p[pos] % 16 <= end && one_byte_elements(
            p,
            pos + 2 + p[pos] % 16,
            end,
        ) is Some ==> one_byte_elements(p, pos, end) == Some(
            2 + p[pos] % 16 + one_byte_elements(p, pos + 2 + p[pos] % 16, end)->0,
        ),
        one_byte_elements(p, end, end) == Some(0int),
{
}

// ---------------------------------------------------------------------------
// Control packets
// ---------------------------------------------------------------------------

/// Feedback for a publisher who can be reached is sealed for them and sent to their
/// address, with the number of key frames that it asks for. Nobody else changes.
pub proof fn law_feedback_is_sent(
    a: Room,
    b: Room,
    g: Feedback,
    r: Option<RelayedFeedback>,
    i: int,
    addr: SocketAddress,
    j: int,
)
    requires
        feedback_relayed(a, b, g, r),
        crate::transport::udp::feedback::feedback_target(a, g.ssrc) == Some((i, addr)),
        taken(a.slots@, i),
        0 <= j < a.slots@.len(),
    ensures
        r matches Some(x) ==> {
            &&& x.publisher == i && x.addr == addr && x.plis == g.plis
            &&& srtcp_opened(a.slots@[i]->0.publish.outbound_srtp@->0.secret, x.packet@) == (
            Result::<Seq<u8>, Seq<char>>::Ok(g.bytes))
        },
        r is Some <==> a.slots@[i]->0.publish.outbound_srtp@ is Some && g.bytes.len() >= 8
            && g.bytes[0] / 64 == 2,
        j != i ==> b.slots@[j] == a.slots@[j],
        b.slots@.len() == a.slots@.len(),
        b.slots@[i]->0.tracks == a.slots@[i]->0.tracks,
        b.floor == a.floor,
{
}

/// Of a subscriber's packet each block of negative acknowledgements is answered, each
/// receiver report ends here, and feedback goes to one publisher after the other.
pub proof fn law_subscriber_packet(
    rooms: Seq<Room>,
    sealed: Seq<Room>,
    b: Room,
    seat: int,
    plain: Seq<u8>,
    r: SubscribeRtcp,
)
    requires
        subscribe_rtcp_done(rooms, sealed, b, seat, plain, r),
    ensures
        r.answers@.len() == blocks_of(plain, 0, BlockKind::Nack).len(),
        r.reports == blocks_of(plain, 0, BlockKind::Rr).len(),
        r.feedback@.len() == feedback_groups(
            rooms.last(),
            seat,
            plain,
            blocks_of(plain, 0, BlockKind::Relay),
            blocks_of(plain, 0, BlockKind::Relay).len() as int,
        ).len(),
{
    reveal(subscribe_rtcp_done);
}

/// Floor control in a conference does nothing.
pub proof fn law_no_floor_in_conference(
    a: Room,
    b: Room,
    user: Seq<char>,
    messages: Seq<MbcpContent>,
    effects: Seq<Effect>,
    counts: FloorCounts,
)
    requires
        talked(a, b, user, messages, effects, counts),
    ensures
        a.mode != RoomMode::Ptt ==> b == a && effects.len() == 0 && counts.granted == 0
            && counts.released == 0 && counts.queued == 0 && counts.revoked == 0,
        b.slots == a.slots && b.mode == a.mode && b.participants == a.participants,
{
}

/// When a fresh SSRC is needed to show a publisher's video: with simulcast, for a packet
/// of VP8 of a layer, where they have none yet.
pub proof fn law_fresh_ssrc_for_media(room: Room, seat: int, plain: Seq<u8>, k: int)
    requires
        taken(room.slots@, seat),
        plain.len() >= 12,
    ensures
        media_needs_ssrc(room, seat, plain) ==> room.simulcast_enabled && plain[1] % 128 == 96
            && room.slots@[seat]->0.simulcast_video_ssrc == 0,
        ({
            let p = room.slots@[seat]->0;
            &&& room.simulcast_enabled && plain[1] % 128 == 96 && p.simulcast_video_ssrc == 0
                && with_ssrc(p.tracks@, be32(plain, 8), k) && (forall|j: int|
                0 <= j < k ==> !#[trigger] with_ssrc(p.tracks@, be32(plain, 8), j)) ==> (
            media_needs_ssrc(room, seat, plain) <==> p.tracks@[k].rid is Some)
        }),
        reports_need_ssrc(room, seat, plain) <==> room.slots@[seat]->0.simulcast_video_ssrc == 0
            && video_report_sent(room, seat, plain),
        video_report_sent(room, seat, plain) ==> room.simulcast_enabled,
{
    let p = room.slots@[seat]->0;
    law_track_by_ssrc(p.tracks@, be32(plain, 8));
    assert(with_ssrc(p.tracks@, be32(plain, 8), k) || !with_ssrc(p.tracks@, be32(plain, 8), k));
}

/// Of a publisher's report only what was received of them is noted, and the SSRC that
/// their video is shown under where one is needed; it stays where there is one.
pub proof fn law_reports_change_reporter(a: Room, b: Room, seat: int, plain: Seq<u8>, fresh: u32, i: int)
    requires
        taken(a.slots@, seat),
        reports_noted(a, b, seat, plain, fresh),
        0 <= i < a.slots@.len(),
    ensures
        i != seat ==> b.slots@[i] == a.slots@[i],
        receptions(b.slots@[seat]->0.recv_stats@) == srs_noted(
            receptions(a.slots@[seat]->0.recv_stats@),
            plain,
            blocks_of(plain, 0, BlockKind::Sr),
            blocks_of(plain, 0, BlockKind::Sr).len() as int,
        ),
        b.slots@[seat]->0.tracks == a.slots@[seat]->0.tracks,
        b.slots@[seat]->0.rtp_cache == a.slots@[seat]->0.rtp_cache,
        a.slots@[seat]->0.simulcast_video_ssrc != 0 ==> b.slots@[seat]->0.simulcast_video_ssrc
            == a.slots@[seat]->0.simulcast_video_ssrc,
        a.slots@[seat]->0.simulcast_video_ssrc == 0 && video_report_sent(a, seat, plain)
            ==> b.slots@[seat]->0.simulcast_video_ssrc == fresh,
        !a.simulcast_enabled ==> b.slots@[seat]->0.simulcast_video_ssrc
            == a.slots@[seat]->0.simulcast_video_ssrc,
{
}

/// What a publisher is asked goes to the one address, on the one SSRC, and can be opened
/// by them; who cannot be asked is not.
pub proof fn law_notes(
    a: Participant,
    b: Participant,
    note: PublisherNote,
    r: Option<(SocketAddress, Vec<u8>)>,
)
    requires
        notified(a, b, note, r),
    ensures
        pli_target(a) is None ==> r is None && b == a,
        r is Some ==> a.publish.outbound_srtp@ is Some,
        r matches Some((to, v)) ==> pli_target(a) matches Some((ssrc, addr)) && to == addr && (note
            == PublisherNote::KeyFrame ==> srtcp_opened(a.publish.outbound_srtp@->0.secret, v@) == (
        Result::<Seq<u8>, Seq<char>>::Ok(crate::transport::udp::rtcp::pli_packet(ssrc)))),
        b.tracks == a.tracks && b.subscribe == a.subscribe && b.publish.address
            == a.publish.address,
{
}

/// A note to all goes to everybody but whom it leaves out.
pub proof fn law_notes_to_all(
    a: Seq<Option<Participant>>,
    b: Seq<Option<Participant>>,
    exclude: Option<Seq<char>>,
    note: PublisherNote,
    r: Seq<Option<(SocketAddress, Vec<u8>)>>,
    n: int,
    i: int,
)
    requires
        all_notified(a, b, exclude, note, r, n),
        0 <= i < n <= a.len(),
        n <= r.len(),
    ensures
        a[i] is None ==> r[i] is None && b[i] is None,
        a[i] is Some && exclude == Some(a[i]->0.user_id@) ==> r[i] is None && b[i] == a[i],
        a[i] is Some && exclude != Some(a[i]->0.user_id@) ==> b[i] is Some && notified(
            a[i]->0,
            b[i]->0,
            note,
            r[i],
        ),
{
    assert(r[i] is None || r[i] is Some);
    assert(crate::transport::udp::egress::gets_note(a, exclude, i) <==> a[i] is Some && exclude
        != Some(a[i]->0.user_id@));
}

/// A report that goes out is one on the stream, with the jitter that was measured.
pub proof fn law_report_that_goes_out(s: Reception, jitter: u32, b: RrReportBlock)
    requires
        reports_on(s, jitter, b),
    ensures
        b.ssrc == s.ssrc && b.jitter == jitter && b.last_sr == report_block(s, jitter, (0, 0)).last_sr,
        b.cumulative_lost == report_block(s, jitter, (0, 0)).cumulative_lost,
        b.fraction_lost == report_block(s, jitter, (0, 0)).fraction_lost,
        b.extended_highest_seq == report_block(s, jitter, (0, 0)).extended_highest_seq,
        !s.sr_seen ==> b.delay_since_last_sr == 0,
{
}

// ---------------------------------------------------------------------------
// Clients
// ---------------------------------------------------------------------------

/// A client that gives a name of blanks alone gives none.
pub proof fn law_who_is_named(req: IdentifyRequest)
    ensures
        is_named(req) <==> req.user_id is Some && exists|i: int|
            0 <= i < req.user_id->0@.len() && !is_white(#[trigger] req.user_id->0@[i]),
{
}

/// The numbers of errors, as the texts begin with.
pub proof fn law_error_codes(e: LightError)
    ensures
        e is NotAuthenticated ==> error_code(e) == 1001,
        e is InvalidToken ==> error_code(e) == 1002,
        e is AlreadyIdentified ==> error_code(e) == 1003,
        e is RoomNotFound ==> error_code(e) == 2001,
        e is RoomFull ==> error_code(e) == 2002,
        e is AlreadyInRoom ==> error_code(e) == 2003,
        e is NotInRoom ==> error_code(e) == 2004,
        e is RoomNameRequired ==> error_code(e) == 2005,
        e is InvalidOpcode ==> error_code(e) == 3001,
        e is InvalidPayload ==> error_code(e) == 3002,
        e is MissingPid ==> error_code(e) == 3003,
        e is SdpParseError ==> error_code(e) == 4001,
        e is DtlsHandshakeFailed ==> error_code(e) == 4002,
        e is SrtpError ==> error_code(e) == 4003,
        e is Internal ==> error_code(e) == 9001,
        e matches LightError::Internal(m) ==> error_text(e) == "[9001] internal error: "@ + m@,
{
}

/// A refusal of a request for the floor: where there is no such room, and where it is a
/// conference. Nothing changes then.
pub proof fn law_floor_request_refused(
    a: RoomHub,
    b: RoomHub,
    user: Seq<char>,
    pid: u64,
    req: FloorRequestMsg,
    t: FloorTimes,
    r: FloorOutcome,
)
    requires
        a.wf(),
        floor_request_handled(a, b, user, pid, req, t, r),
    ensures
        a.room(req.room_id@) is None ==> r.reply@ == (PacketView {
            op: 40,
            pid,
            ok: Some(false),
            d: PayloadView::Error { code: 2001, msg: "room not found"@ },
        }),
        a.room(req.room_id@) matches Some(x) ==> x.mode != RoomMode::Ptt ==> r.reply@
            == (PacketView {
            op: 40,
            pid,
            ok: Some(false),
            d: PayloadView::Error { code: 2020, msg: "not a PTT room"@ },
        }),
        a.room(req.room_id@) is None || a.room(req.room_id@)->0.mode != RoomMode::Ptt
            ==> r.effects@.len() == 0 && b.slots@ == a.slots@ && r.counts.granted == 0,
        a.room(req.room_id@) matches Some(x) ==> x.mode == RoomMode::Ptt ==> b.slots@.len()
            == a.slots@.len() && b.ufrag_index == a.ufrag_index && b.addr_index == a.addr_index
            && forall|i: int|
            0 <= i < a.slots@.len() && Some(i) != a.place_of_room(req.room_id@)
                ==> #[trigger] b.slots@[i] == a.slots@[i],
        a.room(req.room_id@) matches Some(x) ==> x.mode == RoomMode::Ptt ==> request_done(
            x,
            b.room(req.room_id@)->0,
            pid,
            user,
            (if req.priority is Some {
                req.priority->0
            } else {
                0
            }),
            t,
            r,
        ),
{
    let id = req.room_id@;
    if names_of(a.rooms).dom().contains(id) {
        assert(open_at(a.slots@, a.place_of_room(id)->0));
    }
}

/// The same of a release.
pub proof fn law_floor_release_refused(
    a: RoomHub,
    b: RoomHub,
    user: Seq<char>,
    pid: u64,
    id: Seq<char>,
    t: FloorTimes,
    r: FloorOutcome,
)
    requires
        floor_release_handled(a, b, user, pid, id, t, r),
    ensures
        a.room(id) is None ==> r.reply@ == (PacketView {
            op: 41,
            pid,
            ok: Some(false),
            d: PayloadView::Error { code: 2001, msg: "room not found"@ },
        }),
        a.room(id) matches Some(x) ==> x.mode != RoomMode::Ptt ==> r.reply@ == (PacketView {
            op: 41,
            pid,
            ok: Some(false),
            d: PayloadView::Error { code: 2020, msg: "not a PTT room"@ },
        }),
        a.room(id) is None || a.room(id)->0.mode != RoomMode::Ptt ==> r.effects@.len() == 0
            && b.slots@ == a.slots@ && r.counts.released == 0,
        a.room(id) matches Some(x) ==> x.mode == RoomMode::Ptt ==> release_done(
            x,
            b.room(id)->0,
            pid,
            user,
            t,
            after_release(x.floor@, user, t.now_ms).1,
            r,
        ) && b.ufrag_index == a.ufrag_index && b.addr_index == a.addr_index,
        a.room(id) matches Some(x) ==> x.mode == RoomMode::Ptt ==> b.room(id)->0.floor@
            == after_release(x.floor@, user, t.now_ms).0,
{
}

/// A room that was created is found by its identifier and answered as it is; all other
/// rooms are as they were.
pub proof fn law_room_is_created(
    a: RoomHub,
    b: RoomHub,
    pid: u64,
    req: RoomCreateRequest,
    now_ms: u64,
    seed: RoomSeed,
    reply: PacketView,
    other: Seq<char>,
)
    requires
        create_done(a, b, pid, req, now_ms, seed, reply),
    ensures
        b.room(seed.id@) is Some,
        ({
            let r = b.room(seed.id@)->0;
            &&& r.id@ == seed.id@ && r.name@ == req.name@ && r.mode == wanted_mode(req)
            &&& r.created_at == now_ms
            &&& r.simulcast_enabled == (req.simulcast == Some(true) && r.mode != RoomMode::Ptt)
            &&& req.capacity is Some && req.capacity->0 <= 1000 ==> r.capacity == req.capacity->0
            &&& reply == (PacketView {
                op: 10,
                pid,
                ok: Some(true),
                d: PayloadView::RoomCreated {
                    room_id: seed.id@,
                    name: req.name@,
                    capacity: r.capacity,
                    mode: r.mode,
                    simulcast: r.simulcast_enabled,
                },
            })
        }),
        other != seed.id@ ==> b.room(other) == a.room(other),
        b.ufrag_index == a.ufrag_index && b.addr_index == a.addr_index,
{
}

/// A new member has nothing but their name and the credentials of both connections.
pub proof fn law_newcomer(
    p: Participant,
    user: Seq<char>,
    id: Seq<char>,
    pub_ufrag: Seq<char>,
    pub_pwd: Seq<char>,
    sub_ufrag: Seq<char>,
    sub_pwd: Seq<char>,
    now_ms: u64,
    seq: u16,
)
    requires
        is_newcomer(p, user, id, pub_ufrag, pub_pwd, sub_ufrag, sub_pwd, now_ms),
    ensures
        p.user_id@ == user && p.room_id@ == id && p.joined_at == now_ms && p.last_seen == now_ms,
        p.publish.ufrag@ == pub_ufrag && p.publish.ice_pwd@ == pub_pwd,
        p.subscribe.ufrag@ == sub_ufrag && p.subscribe.ice_pwd@ == sub_pwd,
        p.publish.inbound_srtp@ is None && p.subscribe.inbound_srtp@ is None,
        p.publish.address is None && p.subscribe.address is None,
        p.tracks@.len() == 0 && p.subscribe_layers@.len() == 0,
        p.rtp_cache@.len() == 512,
        crate::room::participant::cached(p.rtp_cache@, seq) is None,
        p.rtx_seq == 0 && p.rtx_budget_used == 0 && p.simulcast_video_ssrc == 0,
        p.pipeline.pub_rtp_in == 0 && p.pipeline.sub_rtp_relayed == 0,
{
}

/// A track that somebody adds is new where they have none of its SSRC, and changes
/// nothing otherwise. Video has a retransmission stream, 1000 and the number of such
/// streams before behind its SSRC.
pub proof fn law_added_track(
    p: Participant,
    q: Participant,
    ssrc: u32,
    kind: TrackKind,
    track_id: String,
    rid: Option<String>,
    group: Option<u32>,
)
    requires
        after_add_track(p, q, ssrc, kind, track_id, rid, group),
    ensures
        (exists|k: int| #[trigger] with_ssrc(p.tracks@, ssrc, k)) ==> q == p,
        (forall|k: int| !#[trigger] with_ssrc(p.tracks@, ssrc, k)) ==> {
            let t = q.tracks@.last();
            &&& q.tracks@.len() == p.tracks@.len() + 1
            &&& q.tracks@.drop_last() == p.tracks@
            &&& t.ssrc == ssrc && t.kind == kind && t.track_id == track_id && t.rid == rid
            &&& t.simulcast_group == group && !t.muted
            &&& kind == TrackKind::Video ==> t.rtx_ssrc == Some(
                ((ssrc + 1000 + p.rtx_ssrc_counter) % 0x1_0000_0000) as u32,
            ) && q.rtx_ssrc_counter == p.rtx_ssrc_counter.wrapping_add(1)
            &&& kind == TrackKind::Audio ==> t.rtx_ssrc is None && q.rtx_ssrc_counter
                == p.rtx_ssrc_counter
            &&& q.user_id == p.user_id && q.rtp_cache == p.rtp_cache
        },
{
    law_track_by_ssrc(p.tracks@, ssrc);
    if forall|k: int| !#[trigger] with_ssrc(p.tracks@, ssrc, k) {
        if let Some(i) = crate::room::participant::track_at(p.tracks@, ssrc) {
            assert(with_ssrc(p.tracks@, ssrc, i));
        }
        assert(q.tracks@.drop_last() =~= p.tracks@);
    }
}

/// Whoever is let in is told of the room as it then is, and the others are told that
/// they joined.
pub proof fn law_admission(
    a: RoomHub,
    b: RoomHub,
    user: Seq<char>,
    id: Seq<char>,
    pid: u64,
    server: ServerInfo,
    pub_ice: IceCredentials,
    sub_ice: IceCredentials,
    now_ms: u64,
    o: Outcome,
)
    requires
        admitted(a, b, user, id, pid, server, pub_ice, sub_ice, now_ms, o),
    ensures
        b.room(id) is Some,
        o.reply@ == (PacketView {
            op: 11,
            pid,
            ok: Some(true),
            d: PayloadView::Joined {
                info: join_view(b.room(id)->0, user, server, pub_ice, sub_ice),
            },
        }),
        effects_of(o.effects@) == seq![
            EffectView::ToOthers {
                exclude: user,
                packet: PacketView {
                    op: 100,
                    pid: 0,
                    ok: None,
                    d: PayloadView::Event {
                        event_type: "participant_joined"@,
                        room_id: id,
                        user_id: Some(user),
                    },
                },
            },
        ],
        exists|p: Participant, middle: Room| #[trigger]
            let_in(a.room(id)->0, middle, b.room(id)->0, p, true) && p.user_id@ == user
                && p.publish.ufrag@ == pub_ice.ufrag@ && p.subscribe.ufrag@ == sub_ice.ufrag@
                && p.publish.ice_pwd@ == pub_ice.pwd@ && p.subscribe.ice_pwd@ == sub_ice.pwd@,
        addrs_of(b.addr_index) == addrs_of(a.addr_index),
{
    let (p, middle) = choose|p: Participant, middle: Room| #[trigger]
        let_in(a.room(id)->0, middle, b.room(id)->0, p, true) && is_newcomer(
            p,
            user,
            id,
            pub_ice.ufrag@,
            pub_ice.pwd@,
            sub_ice.ufrag@,
            sub_ice.pwd@,
            now_ms,
        );
    assert(let_in(a.room(id)->0, middle, b.room(id)->0, p, true));
}

/// Whoever is let in takes a place that was free; the others keep theirs, with all but
/// the SSRC that their video is shown under, which stays where there is one.
pub proof fn law_place_of_newcomer(x: Room, middle: Room, y: Room, p: Participant, all: bool, i: int)
    requires
        let_in(x, middle, y, p, all),
        taken(x.slots@, i),
    ensures
        taken(y.slots@, i),
        y.slots@[i]->0.user_id == x.slots@[i]->0.user_id,
        y.slots@[i]->0.tracks == x.slots@[i]->0.tracks,
        x.slots@[i]->0.simulcast_video_ssrc != 0 ==> y.slots@[i] == x.slots@[i],
        exists|k: int|
            #[trigger] taken(y.slots@, k) && !taken(x.slots@, k) && y.slots@[k]->0.user_id
                == p.user_id,
        y.mode == x.mode && y.floor == x.floor && y.capacity == x.capacity,
{
    let slot = choose|slot: usize| #[trigger] crate::room::room::added_at(x, middle, p, slot);
    assert(taken(middle.slots@, slot as int));
    assert(taken(middle.slots@, i));
    assert(taken(y.slots@, slot as int));
    assert(taken(y.slots@, i));
}

/// Leaving: in a room no more key frames are asked of whoever leaves; in a push-to-talk
/// room they let the floor go, or leave the queue.
pub proof fn law_farewell(
    a: RoomHub,
    b: RoomHub,
    id: Seq<char>,
    user: Seq<char>,
    t: FloorTimes,
    r: (Vec<Effect>, FloorCounts),
)
    requires
        farewell_done(a, b, id, user, t, r),
    ensures
        a.room(id) is None ==> r.0@.len() == 0 && b.slots@ == a.slots@,
        a.room(id) matches Some(x) ==> x.member(user) is Some ==> r.0@.len() > 0 && effects_of(
            r.0@,
        )[0] == (EffectView::CancelPli { user_id: user }),
        a.room(id) matches Some(x) ==> x.mode != RoomMode::Ptt ==> b.slots@ == a.slots@,
        a.room(id) matches Some(x) ==> x.mode != RoomMode::Ptt && x.member(user) is None
            ==> r.0@.len() == 0,
        a.room(id) matches Some(x) ==> x.mode == RoomMode::Ptt ==> b.room(id)->0.floor@
            == after_leave(x.floor@, user, t.now_ms).0,
{
    assert(effects_of(r.0@).len() == r.0@.len());
}

/// Publishing changes the tracks of whoever publishes; with simulcast they get an SSRC to
/// be seen under where they show video and have none, and keep the one that they have.
pub proof fn law_publishing(p: Participant, q: Participant, req: PublishTracksRequest, simulcast: bool)
    requires
        published(p, q, req, simulcast),
    ensures
        p.simulcast_video_ssrc != 0 || !simulcast ==> q.simulcast_video_ssrc
            == p.simulcast_video_ssrc,
        q.tracks@.len() == registry(p, req.tracks@, req.tracks@.len() as int).tracks.len(),
        forall|i: int|
            0 <= i < q.tracks@.len() ==> (#[trigger] q.tracks@[i]).ssrc == registry(
                p,
                req.tracks@,
                req.tracks@.len() as int,
            ).tracks[i].ssrc,
        req.twcc_extmap_id is Some ==> q.twcc_extmap_id == req.twcc_extmap_id->0,
        req.twcc_extmap_id is None ==> q.twcc_extmap_id == p.twcc_extmap_id,
        q.user_id == p.user_id && q.rtp_cache == p.rtp_cache && q.publish == p.publish,
{
    let g = registry(p, req.tracks@, req.tracks@.len() as int);
    let d = crate::signaling::handler::track_ops::data_of(q.tracks@);
    assert(d == g.tracks);
    assert forall|i: int| 0 <= i < q.tracks@.len() implies (#[trigger] q.tracks@[i]).ssrc
        == g.tracks[i].ssrc by {
        assert(d[i].ssrc == q.tracks@[i].ssrc);
    }
}

/// Choosing layers changes the choices of whoever chooses and nothing else of anybody, but
/// that each publisher who is named has an SSRC to be seen under from then on.
pub proof fn law_choosing(
    x: Room,
    middle: Room,
    y: Room,
    user: Seq<char>,
    targets: Seq<SubscribeLayerTarget>,
    i: int,
)
    requires
        x.wf(),
        middle.wf(),
        layers_chosen(x, middle, y, user, targets),
        taken(x.slots@, i),
        middle.member(user) is Some,
    ensures
        taken(y.slots@, i),
        y.slots@[i]->0.user_id == x.slots@[i]->0.user_id,
        y.slots@[i]->0.tracks == x.slots@[i]->0.tracks,
        x.slots@[i]->0.user_id@ != user ==> y.slots@[i]->0.subscribe_layers
            == x.slots@[i]->0.subscribe_layers,
        x.slots@[i]->0.simulcast_video_ssrc != 0 ==> y.slots@[i]->0.simulcast_video_ssrc
            == x.slots@[i]->0.simulcast_video_ssrc,
        (exists|j: int|
            0 <= j < targets.len() && (#[trigger] targets[j]).user_id@
                == x.slots@[i]->0.user_id@) ==> y.slots@[i]->0.simulcast_video_ssrc != 0,
        y.floor == x.floor && y.mode == x.mode,
{
    assert(taken(middle.slots@, i));
    law_member_by_name(middle, user, i);
    let k = middle.place_of_user(user)->0;
    assert(taken(middle.slots@, k));
}

/// With simulcast all others who show video have an SSRC to be seen under once they are
/// shown; nobody else is given one, and nobody another one.
pub proof fn law_ssrcs_are_given(a: Room, b: Room, user: Seq<char>, i: int)
    requires
        vssrcs_kept(a, b),
        vssrcs_given(a, b, user, false, a.slots@.len() as int),
        taken(a.slots@, i),
    ensures
        taken(b.slots@, i),
        a.simulcast_enabled && a.slots@[i]->0.user_id@ != user && needs_vssrc(
            a.slots@[i]->0,
            false,
        ) ==> b.slots@[i]->0.simulcast_video_ssrc != 0,
        !a.simulcast_enabled || a.slots@[i]->0.user_id@ == user ==> b.slots@[i] == a.slots@[i],
        a.slots@[i]->0.simulcast_video_ssrc != 0 ==> b.slots@[i] == a.slots@[i],
        b.slots@[i]->0.tracks == a.slots@[i]->0.tracks,
        vssrc_missing(a, user, false) ==> a.simulcast_enabled,
{
    assert(taken(b.slots@, i));
}

/// One member changes, and the others do not.
pub proof fn law_one_changes(a: Room, b: Room, user: Seq<char>, q: Participant, i: int)
    requires
        a.wf(),
        one_participant_changed(a, b, user, q),
        taken(a.slots@, i),
    ensures
        a.slots@[i]->0.user_id@ == user ==> b.slots@[i] == Some(q),
        a.slots@[i]->0.user_id@ != user && a.member(user) is Some ==> b.slots@[i] == a.slots@[i],
        b.floor == a.floor && b.mode == a.mode && b.participants == a.participants,
{
    law_member_by_name(a, user, i);
}

/// Texts that are drawn for connections: one letter for each byte.
pub proof fn law_drawn_text(bytes: Seq<u8>, i: int)
    requires
        0 <= i < bytes.len(),
    ensures
        ice_text(bytes).len() == bytes.len(),
        ice_text(bytes)[i] == ice_char(bytes[i]),
{
}

/// The answer to a binding request: the client's address, the server's name, a code over
/// all before it, and a checksum over all before that.
pub proof fn law_binding_response(addr: SocketAddress, id: Seq<u8>, key: Seq<u8>)
    requires
        id.len() == 12,
    ensures
        ({
            let a = response_attrs(addr, id, key);
            let r = binding_response(addr, id, key);
            &&& a.len() == 4
            &&& a[0] == (0x20u16, xor_mapped(addr, id))
            &&& a[1].0 == 0x8022
            &&& a[2].0 == 8
            &&& a[3].0 == 0x8028
            &&& r.len() >= 20 && r[0] == 1 && r[1] == 1
            &&& r.subrange(8, 20) == id
        }),
{
    let r = binding_response(addr, id, key);
    assert(r.subrange(8, 20) =~= id);
}

/// A datagram from an address at which nobody was seen is left alone; one of a member
/// shows that they are there.
pub proof fn law_datagrams(
    a: RoomHub,
    middle: RoomHub,
    b: RoomHub,
    buf: Seq<u8>,
    remote: SocketAddress,
    now_ms: u64,
    retry: Seq<bool>,
    o: Opening,
    r: MediaOutcome,
)
    requires
        datagram_handled(a, middle, b, buf, remote, now_ms, retry, o, r),
    ensures
        a.find_addr(remote) is None ==> r is Unknown && b.slots@ == a.slots@,
        b.rooms == a.rooms && b.ufrag_index == a.ufrag_index && b.addr_index == a.addr_index,
        a.find_addr(remote) matches Some((room, seat, pc)) ==> room < a.slots@.len() && seat
            < a.slots@[room as int]->0.slots@.len() ==> {
            let p = a.slots@[room as int]->0.slots@[seat as int]->0;
            let x = middle.slots@[room as int]->0;
            &&& packet_opened(
                Participant { last_seen: now_ms, ..p },
                x.slots@[seat as int]->0,
                pc,
                buf,
                o,
            )
            &&& x.slots@ == a.slots@[room as int]->0.slots@.update(
                seat as int,
                x.slots@[seat as int],
            )
            &&& b.slots@ == a.slots@.update(room as int, b.slots@[room as int])
            &&& o is NotReady ==> r is NotReady && b.slots@[room as int] == Some(x)
            &&& o is NotRtcp ==> r is NotRtcp && b.slots@[room as int] == Some(x)
            &&& o is Malformed ==> r is Malformed && b.slots@[room as int] == Some(x)
            &&& o is Failed ==> r is Failed && b.slots@[room as int] == Some(x)
            &&& o is Rtp ==> r is Media || r is NoRandom
            &&& o is Rtcp && pc == PcType::Publish ==> r is PublisherRtcp || r is NoRandom
            &&& o is Rtcp && pc == PcType::Subscribe ==> r is SubscriberRtcp
        },
{
    if let Some((room, seat, pc)) = a.find_addr(remote) {
        if room < a.slots@.len() && seat < a.slots@[room as int]->0.slots@.len() {
            let x = middle.slots@[room as int]->0;
            assert(x.slots@ =~= a.slots@[room as int]->0.slots@.update(
                seat as int,
                x.slots@[seat as int],
            ));
            assert(b.slots@ =~= a.slots@.update(room as int, b.slots@[room as int]));
        }
    }
}

/// What is relayed of a publisher's control packet: its sender reports and its feedback,
/// found by kind, to all who are due them.
pub proof fn law_publisher_packet(room: Room, seat: int, plain: Seq<u8>)
    ensures
        ({
            let p = room.slots@[seat]->0;
            let srs = blocks_of(plain, 0, BlockKind::Sr);
            let relay = blocks_of(plain, 0, BlockKind::Relay);
            &&& srs.len() == 0 && relay.len() == 0 ==> rtcp_relayed(room, seat, plain).len() == 0
            &&& room.mode == RoomMode::Ptt && relay.len() == 0 ==> rtcp_relayed(
                room,
                seat,
                plain,
            ).len() == 0
            &&& room.mode == RoomMode::Ptt && (room.floor@.burst is None
                || room.floor@.burst->0.speaker != p.user_id@) ==> rtcp_relayed(
                room,
                seat,
                plain,
            ).len() == 0
            &&& room.mode != RoomMode::Ptt && srs.len() > 0 ==> rtcp_relayed(room, seat, plain)
                == publish_rtcp_out(
                room,
                blocks_bytes(plain, srs),
                blocks_bytes(plain, relay),
                p,
                p.simulcast_video_ssrc,
                room.slots@.len() as int,
            )
            &&& forall|k: int|
                0 <= k < srs.len() ==> #[trigger] blocks_bytes(plain, srs)[k] == plain.subrange(
                    srs[k].offset as int,
                    srs[k].offset + srs[k].length,
                )
        }),
{
}

/// Sending to a subscriber changes the keys of the connection that it goes out by and what
/// was counted, and nothing else of them.
pub proof fn law_sending_changes(a: Participant, b: Participant)
    requires
        sealed_to(a, b),
    ensures
        b.publish == a.publish && b.tracks == a.tracks && b.user_id == a.user_id,
        b.subscribe.address == a.subscribe.address && b.subscribe.inbound_srtp
            == a.subscribe.inbound_srtp && b.subscribe.ufrag == a.subscribe.ufrag,
        b.rtp_cache == a.rtp_cache && b.subscribe_layers == a.subscribe_layers && b.rtx_seq
            == a.rtx_seq,
{
}

/// Choosing layers draws an SSRC where somebody who is named has none.
pub proof fn law_who_lacks_ssrc(room: Room, targets: Seq<SubscribeLayerTarget>)
    ensures
        target_lacks_ssrc(room, targets) <==> exists|i: int, j: int|
            #[trigger] taken(room.slots@, i) && 0 <= j < targets.len() && (
            #[trigger] targets[j]).user_id@ == room.slots@[i]->0.user_id@
                && room.slots@[i]->0.simulcast_video_ssrc == 0,
{
    if target_lacks_ssrc(room, targets) {
        let i = choose|i: int| #[trigger]
            taken(room.slots@, i) && room.slots@[i]->0.simulcast_video_ssrc == 0
                && crate::signaling::handler::track_ops::is_target(
                targets,
                room.slots@[i]->0.user_id@,
                targets.len() as int,
            );
        let j = choose|j: int|
            0 <= j < targets.len() && (#[trigger] targets[j]).user_id@
                == room.slots@[i]->0.user_id@;
        assert(taken(room.slots@, i) && targets[j].user_id@ == room.slots@[i]->0.user_id@);
    }
}

/// A report is on video where any of its blocks is on a video track of the reporter.
pub proof fn law_video_is_reported(p: Participant, plain: Seq<u8>, srs: Seq<RtcpBlockRef>, n: int)
    requires
        0 <= n <= srs.len(),
    ensures
        reports_video(p, plain, srs, n) <==> exists|k: int|
            0 <= k < n && video_block(p, plain, #[trigger] srs[k]),
    decreases n,
{
    if n > 0 {
        law_video_is_reported(p, plain, srs, n - 1);
        if reports_video(p, plain, srs, n - 1) {
            let k = choose|k: int| 0 <= k < n - 1 && video_block(p, plain, #[trigger] srs[k]);
            assert(video_block(p, plain, srs[k]));
        }
        let b = plain.subrange(srs[n - 1].offset as int, srs[n - 1].offset + srs[n - 1].length);
        assert(is_kind(p, report_source(b), TrackKind::Video) == video_block(
            p,
            plain,
            srs[n - 1],
        ));
    }
}

/// Whether a block is on a video track: by the SSRC behind its first word.
pub open spec fn video_block(p: Participant, plain: Seq<u8>, b: RtcpBlockRef) -> bool {
    let bytes = plain.subrange(b.offset as int, b.offset + b.length);
    let ssrc = if bytes.len() >= 8 {
        be32(bytes, 4)
    } else {
        0
    };
    exists|i: int|
        0 <= i < p.tracks@.len() && (#[trigger] p.tracks@[i]).ssrc == ssrc && p.tracks@[i].kind
            == TrackKind::Video
}

/// A report on video is sent on with simulcast where anybody else can receive it.
pub proof fn law_video_report_is_sent(room: Room, seat: int, plain: Seq<u8>, i: int)
    requires
        taken(room.slots@, seat),
        room.slots@.len() <= usize::MAX,
        room.simulcast_enabled,
        reports_video(
            room.slots@[seat]->0,
            plain,
            blocks_of(plain, 0, BlockKind::Sr),
            blocks_of(plain, 0, BlockKind::Sr).len() as int,
        ),
        taken(room.slots@, i),
        room.slots@[i]->0.user_id@ != room.slots@[seat]->0.user_id@,
        room.slots@[i]->0.subscribe.inbound_srtp@ is Some,
    ensures
        video_report_sent(room, seat, plain),
{
    let user = room.slots@[seat]->0.user_id@;
    let n = room.slots@.len() as int;
    law_targets(room.slots@, user, n);
    assert(is_target(room.slots@, user, i));
    let t = targets(room.slots@, user, n);
    assert(t.contains(i as usize));
}

/// What a publisher's control packet comes to: the floor first, then the reports are noted,
/// then all is relayed from the room as it is then.
pub proof fn law_publisher_packet_is_done(a: Room, b: Room, seat: int, plain: Seq<u8>, fresh: u32, r: PublishRtcp)
    requires
        publish_rtcp_done(a, b, seat, plain, fresh, r),
    ensures
        exists|middle: Room| #[trigger]
            reports_noted(middle, b, seat, plain, fresh) && talked(
                a,
                middle,
                a.slots@[seat]->0.user_id@,
                mbcp_messages(plain, 0),
                r.effects@,
                r.counts,
            ),
        r.out@.len() == rtcp_relayed(b, seat, plain).len(),
        forall|k: int|
            0 <= k < r.out@.len() ==> (#[trigger] r.out@[k]).0 == rtcp_relayed(b, seat, plain)[k].0
                && r.out@[k].1@ == rtcp_relayed(b, seat, plain)[k].1,
{
    let middle = choose|middle: Room| #[trigger]
        talked(
            a,
            middle,
            a.slots@[seat]->0.user_id@,
            mbcp_messages(plain, 0),
            r.effects@,
            r.counts,
        ) && reports_noted(middle, b, seat, plain, fresh);
    assert(reports_noted(middle, b, seat, plain, fresh));
    let v = crate::transport::udp::fanout::forwards_of(r.out@);
    assert(v == rtcp_relayed(b, seat, plain));
    assert forall|k: int| 0 <= k < r.out@.len() implies (#[trigger] r.out@[k]).0 == v[k].0
        && r.out@[k].1@ == v[k].1 by {}
}

/// What a publisher's media packet comes to: it is counted, then relayed from the room as it
/// is then.
pub proof fn law_media_packet_is_done(
    a: Room,
    b: Room,
    seat: int,
    plain: Seq<u8>,
    now_ms: u64,
    fresh: u32,
    retry: Seq<bool>,
    r: RtpRelay,
)
    requires
        publish_rtp_done(a, b, seat, plain, now_ms, fresh, retry, r),
    ensures
        r.header == rtp_header(plain),
        exists|counted: Room, sent: Room|
            stats_collected(a, counted, seat, plain, now_ms, r.sample) && #[trigger] rtp_relayed(
                counted,
                sent,
                b,
                seat,
                plain,
                fresh,
                retry,
                r,
            ),
{
}

} // verus!
