//! What comes in on the media connections: who it is from, what it says, and what
//! becomes of it.

use vstd::prelude::*;

use crate::config::{self, RoomMode};
use crate::room::hub::{hub_unchanged, indices_unchanged, lemma_replaced, open_at, RoomHub};
use crate::room::participant::{
    cache_slot, find_recv, find_track, random_nonzero_u32, receptions, recv_place, MediaSession,
    Participant, PcType, PipelineStats, TrackKind,
};
use crate::room::room::{taken, Room};
use crate::signaling::effect::Effect;
use crate::signaling::handler::floor_ops::{floor_changed, no_floor_counts, FloorCounts, FloorTimes};
use crate::signaling::session::lemma_one_participant;
use crate::transport::addr::SocketAddress;
use crate::transport::srtp::{
    after_rtp, can_decrypt_rtcp, can_decrypt_rtp, rtcp_trailer_fits, rtp_elements_fit, rtp_prior,
    srtcp_opened, srtp_opened, SrtpError,
};
use crate::transport::udp::fanout::{
    asking_for, fanout_applied, fanout_outcome, fanout_simulcast_video, forwards_of, high_layer_pli,
    layer_forwards, offered, prepare_fanout_payload, relay_targets, rid_of, simulcast_applied,
    targets, vssrc_or, Fanout, FanoutView, SimulcastFanout,
};
use crate::transport::udp::feedback::{
    consume_sender_reports, feedback_groups, feedback_target, find_feedback_target, group_feedback,
    groups_of, has_kind, is_kind, publish_rtcp_out, publish_rtcp_relayed,
    relay_publish_rtcp_translated, report_source, seal_for_publisher, sealed_for, sealed_rtcp,
    source_of_report, srs_noted, Feedback, FeedbackGroup,
};
use crate::transport::udp::mbcp::{
    after_messages, handle_mbcp_from_publish, subtypes_of, talk_is, times_in_step,
};
use crate::transport::udp::nack::{handle_nack_block, nack_applied, nack_run, NackAnswer};
use crate::transport::udp::rtcp::{
    block_bytes, block_slice, blocks_of, blocks_within, mbcp_messages, nack_items,
    parse_rtp_header, rtp_header, split_compound_rtcp, BlockKind, MbcpContent, MbcpMessage,
    RtcpBlockRef, RtpHeader,
};
use crate::transport::udp::rtcp_terminator::{after_packet, reception_valid, RecvStats, Reception};
use crate::wire::{copy_bytes, runs};

verus! {

// ---------------------------------------------------------------------------
// Opening
// ---------------------------------------------------------------------------

/// Whether a packet is RTCP and not RTP (RFC 5761): by its payload type.
pub open spec fn is_rtcp_packet(buf: Seq<u8>) -> bool {
    buf.len() >= 2 && 72 <= buf[1] % 128 <= 79
}

pub fn is_rtcp(buf: &[u8]) -> (r: bool)
    ensures
        r == is_rtcp_packet(buf@),
{
    buf.len() >= 2 && 72 <= buf[1] % 128 && buf[1] % 128 <= 79
}

/// What a packet of a participant turns out to be.
#[derive(Debug)]
pub enum Opening {
    /// The keys of the publishing connection are not there yet.
    NotReady,
    /// Media on the receiving connection.
    NotRtcp,
    /// The packet is cut off, or an element of its header extension is.
    Malformed,
    Failed(SrtpError),
    Rtp(Vec<u8>),
    Rtcp(Vec<u8>),
}

/// A connection that has decrypted something.
pub open spec fn inbound_changed(a: MediaSession, b: MediaSession) -> bool {
    b == (MediaSession { inbound_srtp: b.inbound_srtp, ..a })
}

/// What becomes of a packet on a connection of a participant.
pub open spec fn packet_opened(a: Participant, b: Participant, pc: PcType, buf: Seq<u8>, r: Opening) -> bool {
    let s = a.side(pc).inbound_srtp@;
    let t = b.side(pc).inbound_srtp@;
    &&& b == (Participant {
        publish: b.publish,
        subscribe: b.subscribe,
        pipeline: b.pipeline,
        ..a
    })
    &&& inbound_changed(a.publish, b.publish)
    &&& inbound_changed(a.subscribe, b.subscribe)
    &&& match pc {
        PcType::Publish => b.subscribe == a.subscribe,
        PcType::Subscribe => b.publish == a.publish,
    }
    &&& b.pipeline == (if r is Rtp {
        PipelineStats { pub_rtp_in: a.pipeline.pub_rtp_in.wrapping_add(1), ..a.pipeline }
    } else {
        a.pipeline
    })
    &&& if pc == PcType::Publish && !a.publish.ready() {
        r is NotReady && t == s
    } else if is_rtcp_packet(buf) {
        &&& t == s
        &&& if !rtcp_trailer_fits(buf) {
            r is Malformed
        } else {
            match s {
                None => r is Failed,
                Some(k) => match srtcp_opened(k.secret, buf) {
                    Ok(plain) => r matches Opening::Rtcp(v) && v@ == plain,
                    Err(_) => r is Failed,
                },
            }
        }
    } else if pc == PcType::Subscribe {
        r is NotRtcp && t == s
    } else if !rtp_elements_fit(buf) {
        r is Malformed && t == s
    } else {
        match s {
            None => r is Failed && t == s,
            Some(k) => match srtp_opened(k.secret, rtp_prior(k, buf), buf) {
                Ok(plain) => {
                    &&& r matches Opening::Rtp(v) && v@ == plain
                    &&& t == Some(after_rtp(k, buf))
                },
                Err(_) => r is Failed && t == s,
            },
        }
    }
}

/// Opens a packet on a connection of a participant.
pub fn open_packet(p: &mut Participant, pc: PcType, buf: &[u8]) -> (r: Opening)
    requires
        old(p).wf(),
    ensures
        final(p).wf(),
        packet_opened(*old(p), *final(p), pc, buf@, r),
{
    match pc {
        PcType::Subscribe => {
            if !is_rtcp(buf) {
                return Opening::NotRtcp;
            }
            if !can_decrypt_rtcp(buf) {
                return Opening::Malformed;
            }
            match p.subscribe.inbound_srtp.decrypt_rtcp(buf) {
                Ok(v) => Opening::Rtcp(v),
                Err(e) => Opening::Failed(e),
            }
        },
        PcType::Publish => {
            if !p.is_publish_ready() {
                return Opening::NotReady;
            }
            if is_rtcp(buf) {
                if !can_decrypt_rtcp(buf) {
                    return Opening::Malformed;
                }
                return match p.publish.inbound_srtp.decrypt_rtcp(buf) {
                    Ok(v) => Opening::Rtcp(v),
                    Err(e) => Opening::Failed(e),
                };
            }
            if !can_decrypt_rtp(buf) {
                return Opening::Malformed;
            }
            match p.publish.inbound_srtp.decrypt_rtp(buf) {
                Ok(v) => {
                    p.pipeline.pub_rtp_in = p.pipeline.pub_rtp_in.wrapping_add(1);
                    Opening::Rtp(v)
                },
                Err(e) => Opening::Failed(e),
            }
        },
    }
}

/// A hub in which one participant differs.
pub open spec fn seat_changed(a: RoomHub, b: RoomHub, room: int, seat: int, q: Participant) -> bool {
    let x = a.slots@[room]->0;
    let y = b.slots@[room]->0;
    &&& b.slots@ == a.slots@.update(room, Some(y))
    &&& y == (Room { slots: y.slots, ..x })
    &&& y.slots@ == x.slots@.update(seat, Some(q))
    &&& b.rooms == a.rooms
    &&& indices_unchanged(a, b)
}

/// Opens a datagram: whose it is, by the address that it came from, gives a sign
/// of life. Nothing where nobody was seen at that address.
pub fn open_media(hub: &mut RoomHub, buf: &[u8], remote: SocketAddress, now_ms: u64) -> (r: Option<
    (usize, usize, PcType, Opening),
>)
    requires
        old(hub).wf(),
    ensures
        final(hub).wf(),
        match old(hub).find_addr(remote) {
            None => r is None && hub_unchanged(*old(hub), *final(hub)),
            Some((room, seat, pc)) => {
                let p = old(hub).slots@[room as int]->0.slots@[seat as int]->0;
                let q = final(hub).slots@[room as int]->0.slots@[seat as int]->0;
                &&& open_at(final(hub).slots@, room as int)
                &&& taken(final(hub).slots@[room as int]->0.slots@, seat as int)
                &&& seat_changed(*old(hub), *final(hub), room as int, seat as int, q)
                &&& r matches Some((i, k, c, o)) && i == room && k == seat && c == pc
                    && packet_opened(Participant { last_seen: now_ms, ..p }, q, pc, buf@, o)
            },
        },
{
    let (room, seat, pc): (usize, usize, PcType) = match hub.find_by_addr(&remote) {
        Some(x) => x,
        None => {
            return None;
        },
    };
    let ghost start = *hub;
    let ghost x = hub.slots@[room as int]->0;
    let mut opening = Opening::NotReady;
    match &mut hub.slots[room] {
        Some(r) => {
            assert(taken(r.slots@, seat as int));
            match &mut r.slots[seat] {
                Some(me) => {
                    me.touch(now_ms);
                    opening = open_packet(me, pc, buf);
                },
                None => {},
            }
        },
        None => {},
    }
    proof {
        let y = hub.slots@[room as int]->0;
        let q = y.slots@[seat as int]->0;
        assert(y.slots@ =~= x.slots@.update(seat as int, Some(q)));
        lemma_one_participant(x, y, seat as int, q);
        lemma_replaced(start, *hub, room as int);
    }
    Some((room, seat, pc, opening))
}

// ---------------------------------------------------------------------------
// Statistics and cache
// ---------------------------------------------------------------------------

/// A stream of which nothing was received.
pub open spec fn fresh_reception(ssrc: u32, clock_rate: u32) -> Reception {
    Reception {
        ssrc,
        clock_rate,
        max_seq: 0,
        cycles: 0,
        base_seq: 0,
        bad_seq: 0,
        received: 0,
        expected_prior: 0,
        received_prior: 0,
        last_transit: 0,
        sr_middle: 0,
        sr_seen: false,
        initialized: false,
        probation: config::RTP_SEQ_MIN_SEQUENTIAL,
    }
}

/// The clock by which the timestamps of a payload type count.
pub open spec fn clock_rate_of(pt: u8) -> u32 {
    if pt == config::OPUS_PAYLOAD_TYPE {
        config::CLOCK_RATE_AUDIO
    } else {
        config::CLOCK_RATE_VIDEO
    }
}

/// What was received of the SSRC of a packet before it.
pub open spec fn prior_reception(stats: Seq<Reception>, h: RtpHeader) -> Reception {
    match recv_place(stats, h.ssrc) {
        Some(i) => stats[i],
        None => fresh_reception(h.ssrc, clock_rate_of(h.pt)),
    }
}

/// What was received, with one packet more.
pub open spec fn with_packet(stats: Seq<Reception>, h: RtpHeader, arrival_ms: u64) -> Seq<Reception> {
    let s = after_packet(prior_reception(stats, h), h.seq, h.timestamp, arrival_ms).0;
    match recv_place(stats, h.ssrc) {
        Some(i) => stats.update(i, s),
        None => stats.push(s),
    }
}

/// A pause in a publisher's audio that is longer than this is worth noting.
pub const AUDIO_GAP_MS: u64 = 40;

/// The pause in milliseconds between two audio packets, from their arrival in
/// microseconds, if it is a long one. There is none before the first packet, whose
/// predecessor arrived at 0.
pub fn audio_gap(prev_us: u64, now_us: u64) -> (r: Option<u64>)
    ensures
        r == (if 0 < prev_us <= now_us && (now_us - prev_us) / 1000 > AUDIO_GAP_MS {
            Some(((now_us - prev_us) / 1000) as u64)
        } else {
            None
        }),
{
    if prev_us > 0 && prev_us <= now_us {
        let gap_ms: u64 = (now_us - prev_us) / 1000;
        if gap_ms > AUDIO_GAP_MS {
            return Some(gap_ms);
        }
    }
    None
}

/// Counts a packet of a publisher and keeps it if it is video. Retransmissions are
/// not counted. The distance in transit time to the packet before, if there is
/// one, is returned: the jitter goes by it.
pub fn collect_rtp_stats(p: &mut Participant, plaintext: &[u8], h: &RtpHeader, arrival_ms: u64) -> (r:
    Option<u64>)
    requires
        old(p).wf(),
        arrival_ms * config::CLOCK_RATE_VIDEO <= i64::MAX,
    ensures
        final(p).wf(),
        *final(p) == (Participant {
            recv_stats: final(p).recv_stats,
            rtp_cache: final(p).rtp_cache,
            ..*old(p)
        }),
        ({
            let stats = receptions(old(p).recv_stats@);
            let counted = !config::is_rtx(h.pt);
            &&& receptions(final(p).recv_stats@) == (if counted {
                with_packet(stats, *h, arrival_ms)
            } else {
                stats
            })
            &&& match r {
                Some(d) => counted && after_packet(
                    prior_reception(stats, *h),
                    h.seq,
                    h.timestamp,
                    arrival_ms,
                ).1 == Some(d as int),
                None => counted ==> after_packet(
                    prior_reception(stats, *h),
                    h.seq,
                    h.timestamp,
                    arrival_ms,
                ).1 is None,
            }
        }),
        final(p).rtp_cache@ == (if h.pt == config::VP8_PAYLOAD_TYPE {
            old(p).rtp_cache@.update(cache_slot(h.seq), Some(plaintext@))
        } else {
            old(p).rtp_cache@
        }),
{
    let mut sample: Option<u64> = None;
    if !config::is_rtx_pt(h.pt) {
        let clock: u32 = if h.pt == config::OPUS_PAYLOAD_TYPE {
            config::CLOCK_RATE_AUDIO
        } else {
            config::CLOCK_RATE_VIDEO
        };
        let ghost before = p.recv_stats@;
        let at: usize = match find_recv(&p.recv_stats, h.ssrc) {
            Some(i) => i,
            None => {
                p.recv_stats.push(RecvStats::new(h.ssrc, clock));
                assert(receptions(p.recv_stats@) =~= receptions(before).push(
                    fresh_reception(h.ssrc, clock),
                ));
                p.recv_stats.len() - 1
            },
        };
        let ghost middle = p.recv_stats@;
        proof {
            let rate = middle[at as int]@.clock_rate;
            assert(reception_valid(middle[at as int]@) && rate <= config::CLOCK_RATE_VIDEO);
            assert(arrival_ms * rate <= arrival_ms * config::CLOCK_RATE_VIDEO) by (nonlinear_arith)
                requires
                    rate <= config::CLOCK_RATE_VIDEO,
                    0 <= arrival_ms,
            ;
        }
        sample = p.recv_stats[at].update(h.seq, h.timestamp, arrival_ms);
        proof {
            assert(receptions(p.recv_stats@) =~= receptions(middle).update(
                at as int,
                p.recv_stats@[at as int]@,
            ));
            assert(receptions(p.recv_stats@) =~= with_packet(receptions(before), *h, arrival_ms));
        }
    }
    if h.pt == config::VP8_PAYLOAD_TYPE {
        p.rtp_cache.store(h.seq, plaintext);
    }
    sample
}

// ---------------------------------------------------------------------------
// Media of a publisher
// ---------------------------------------------------------------------------

/// What becomes of a media packet.
pub struct RtpRelay {
    pub header: RtpHeader,
    /// What the jitter goes by.
    pub sample: Option<u64>,
    pub outcome: Fanout,
    /// The places of those who get the packet as it is in `outcome`.
    pub to: Vec<usize>,
    /// With simulcast, what each subscriber gets, and whether the publisher is
    /// asked for a key frame.
    pub layers: SimulcastFanout,
}

/// The packet that goes out, if any does.
pub open spec fn fanout_bytes(o: FanoutView) -> Option<Seq<u8>> {
    match o {
        FanoutView::Gated => None,
        FanoutView::PendingKeyframe => None,
        FanoutView::Rewritten(b) => Some(b),
        FanoutView::Skipped(b) => Some(b),
        FanoutView::Plain(b) => Some(b),
    }
}

/// A room in which a packet of a publisher was counted.
pub open spec fn stats_collected(a: Room, b: Room, seat: int, plain: Seq<u8>, arrival_ms: u64, sample: Option<u64>) -> bool {
    let p = a.slots@[seat]->0;
    let q = b.slots@[seat]->0;
    let h = rtp_header(plain);
    let stats = receptions(p.recv_stats@);
    let counted = !config::is_rtx(h.pt);
    let step = after_packet(prior_reception(stats, h), h.seq, h.timestamp, arrival_ms);
    &&& b == (Room { slots: b.slots, ..a })
    &&& b.slots@ == a.slots@.update(seat, Some(q))
    &&& q == (Participant { recv_stats: q.recv_stats, rtp_cache: q.rtp_cache, ..p })
    &&& receptions(q.recv_stats@) == (if counted {
        with_packet(stats, h, arrival_ms)
    } else {
        stats
    })
    &&& q.rtp_cache@ == (if h.pt == config::VP8_PAYLOAD_TYPE {
        p.rtp_cache@.update(cache_slot(h.seq), Some(plain))
    } else {
        p.rtp_cache@
    })
    &&& match sample {
        Some(d) => counted && step.1 == Some(d as int),
        None => counted ==> step.1 is None,
    }
}

/// What becomes of a packet after it was counted: in push-to-talk only the
/// speaker is heard; with simulcast each subscriber gets the layer that they
/// chose; else everybody else gets it who is ready.
pub open spec fn rtp_relayed(
    counted: Room,
    sent: Room,
    b: Room,
    seat: int,
    plain: Seq<u8>,
    fresh: u32,
    retry: Seq<bool>,
    r: RtpRelay,
) -> bool {
    let p = counted.slots@[seat]->0;
    let h = rtp_header(plain);
    &&& fanout_applied(counted, sent, seat, plain, h.pt)
    &&& r.outcome@ == fanout_outcome(counted, p.user_id@, plain, h.pt)
    &&& match fanout_bytes(r.outcome@) {
        None => b == sent && r.to@.len() == 0 && no_layers(r.layers),
        Some(bytes) => if counted.simulcast_enabled && h.pt == config::VP8_PAYLOAD_TYPE {
            r.to@.len() == 0 && layers_sent(sent, b, seat, bytes, h.ssrc, fresh, retry, r.layers)
        } else {
            b == sent && r.to@ == targets(sent.slots@, p.user_id@, sent.slots@.len() as int)
                && no_layers(r.layers)
        },
    }
}

pub open spec fn no_layers(l: SimulcastFanout) -> bool {
    l.forwards@.len() == 0 && l.asking@.len() == 0 && l.pli is None
}

/// What a video packet with simulcast comes to.
pub open spec fn layers_sent(
    a: Room,
    b: Room,
    seat: int,
    bytes: Seq<u8>,
    ssrc: u32,
    fresh: u32,
    retry: Seq<bool>,
    l: SimulcastFanout,
) -> bool {
    let x = a.slots@[seat]->0;
    if rid_of(x, ssrc) is None {
        b == a && no_layers(l)
    } else {
        let q = offered(x, ssrc, fresh, bytes);
        let n = a.slots@.len() as int;
        &&& simulcast_applied(a, b, seat, ssrc, fresh, bytes)
        &&& forwards_of(l.forwards@) == layer_forwards(a.slots@, q, n)
        &&& l.asking@ == asking_for(a.slots@, q, retry, n)
        &&& l.pli == (if l.asking@.len() > 0 {
            high_layer_pli(x)
        } else {
            None
        })
    }
}

/// A media packet of the participant at `seat`. `fresh` becomes the SSRC under
/// which their video is seen, should it have none yet. `retry` says place by place
/// for whom it is time to ask again for a key frame that has not come.
pub fn handle_publish_rtp(
    room: &mut Room,
    seat: usize,
    plaintext: &[u8],
    arrival_ms: u64,
    fresh: u32,
    retry: &Vec<bool>,
) -> (r: RtpRelay)
    requires
        old(room).wf(),
        taken(old(room).slots@, seat as int),
        arrival_ms * config::CLOCK_RATE_VIDEO <= i64::MAX,
        fresh != 0,
    ensures
        final(room).wf(),
        r.header == rtp_header(plaintext@),
        exists|counted: Room, sent: Room| #[trigger]
            rtp_relayed(counted, sent, *final(room), seat as int, plaintext@, fresh, retry@, r)
                && stats_collected(
                *old(room),
                counted,
                seat as int,
                plaintext@,
                arrival_ms,
                r.sample,
            ),
{
    let header = parse_rtp_header(plaintext);
    let ghost start = *room;
    let mut sample: Option<u64> = None;
    let mut user = String::new();
    match &mut room.slots[seat] {
        Some(p) => {
            sample = collect_rtp_stats(p, plaintext, &header, arrival_ms);
            user = p.user_id.clone();
        },
        None => {},
    }
    proof {
        let q = room.slots@[seat as int]->0;
        assert(room.slots@ =~= start.slots@.update(seat as int, Some(q)));
        lemma_one_participant(start, *room, seat as int, q);
        assert(stats_collected(start, *room, seat as int, plaintext@, arrival_ms, sample));
    }
    let ghost counted = *room;
    let outcome = prepare_fanout_payload(room, seat, plaintext, header.pt);
    let ghost sent = *room;
    proof {
        assert(taken(sent.slots@, seat as int));
    }
    let mut to: Vec<usize> = Vec::new();
    let mut layers = SimulcastFanout { forwards: Vec::new(), asking: Vec::new(), pli: None };
    assert(no_layers(layers));
    let going: Option<&Vec<u8>> = match &outcome {
        Fanout::Gated => None,
        Fanout::PendingKeyframe => None,
        Fanout::Rewritten(b) => Some(b),
        Fanout::Skipped(b) => Some(b),
        Fanout::Plain(b) => Some(b),
    };
    if let Some(bytes) = going {
        if room.simulcast_enabled && header.pt == config::VP8_PAYLOAD_TYPE {
            layers = fanout_simulcast_video(room, seat, bytes, header.ssrc, fresh, retry);
        } else {
            to = relay_targets(room, user.as_str());
        }
    }
    let r = RtpRelay { header, sample, outcome, to, layers };
    assert(rtp_relayed(counted, sent, *room, seat as int, plaintext@, fresh, retry@, r));
    r
}

/// Counts whether a packet could be queued for a subscriber.
pub fn note_relay(p: &mut Participant, queued: bool)
    requires
        old(p).wf(),
    ensures
        final(p).wf(),
        *final(p) == (Participant {
            pipeline: if queued {
                PipelineStats {
                    sub_rtp_relayed: old(p).pipeline.sub_rtp_relayed.wrapping_add(1),
                    ..old(p).pipeline
                }
            } else {
                PipelineStats {
                    sub_rtp_dropped: old(p).pipeline.sub_rtp_dropped.wrapping_add(1),
                    ..old(p).pipeline
                }
            },
            ..*old(p)
        }),
{
    if queued {
        p.pipeline.sub_rtp_relayed = p.pipeline.sub_rtp_relayed.wrapping_add(1);
    } else {
        p.pipeline.sub_rtp_dropped = p.pipeline.sub_rtp_dropped.wrapping_add(1);
    }
}

/// Counts a report that was queued for a subscriber.
pub fn note_report(p: &mut Participant)
    requires
        old(p).wf(),
    ensures
        final(p).wf(),
        *final(p) == (Participant {
            pipeline: PipelineStats {
                sub_sr_relayed: old(p).pipeline.sub_sr_relayed.wrapping_add(1),
                ..old(p).pipeline
            },
            ..*old(p)
        }),
{
    p.pipeline.sub_sr_relayed = p.pipeline.sub_sr_relayed.wrapping_add(1);
}

// ---------------------------------------------------------------------------
// Control packets of a publisher
// ---------------------------------------------------------------------------

/// The bytes of blocks.
pub open spec fn blocks_bytes(buf: Seq<u8>, blocks: Seq<RtcpBlockRef>) -> Seq<Seq<u8>> {
    blocks.map_values(|b: RtcpBlockRef| block_bytes(buf, b))
}

fn copy_blocks(buf: &[u8], blocks: &Vec<RtcpBlockRef>) -> (r: Vec<Vec<u8>>)
    requires
        blocks_within(buf@, blocks@),
    ensures
        runs(r@) == blocks_bytes(buf@, blocks@),
{
    let mut out: Vec<Vec<u8>> = Vec::new();
    let mut i: usize = 0;
    while i < blocks.len()
        invariant
            blocks_within(buf@, blocks@),
            i <= blocks@.len(),
            runs(out@) == blocks_bytes(buf@, blocks@.take(i as int)),
        decreases blocks@.len() - i,
    {
        let b = copy_bytes(block_slice(buf, &blocks[i]));
        let ghost before = out@;
        out.push(b);
        proof {
            assert(runs(out@) =~= runs(before).push(b@));
            assert(blocks@.take(i + 1) =~= blocks@.take(i as int).push(blocks@[i as int]));
            assert(blocks_bytes(buf@, blocks@.take(i + 1)) =~= blocks_bytes(
                buf@,
                blocks@.take(i as int),
            ).push(b@));
        }
        i += 1;
    }
    assert(blocks@.take(blocks@.len() as int) =~= blocks@);
    out
}

/// What a control packet of a publisher comes to.
pub struct PublishRtcp {
    /// What is to be done about the floor.
    pub effects: Vec<Effect>,
    pub counts: FloorCounts,
    /// The packet for each subscriber, by place.
    pub out: Vec<(usize, Vec<u8>)>,
}

/// What messages say.
pub open spec fn content_subtypes(v: Seq<MbcpContent>) -> Seq<u8> {
    v.map_values(|m: MbcpContent| m.subtype)
}

/// A room before and after floor control messages of `user`.
pub open spec fn talked(
    a: Room,
    b: Room,
    user: Seq<char>,
    messages: Seq<MbcpContent>,
    effects: Seq<Effect>,
    counts: FloorCounts,
) -> bool {
    &&& floor_changed(a, b)
    &&& if a.mode != RoomMode::Ptt {
        b == a && effects.len() == 0 && counts == no_floor_counts()
    } else {
        exists|times: Seq<FloorTimes>|
            times.len() == messages.len() && times_in_step(
                a,
                user,
                content_subtypes(messages),
                times,
            ) && talk_is(
                b,
                effects,
                counts,
                #[trigger] after_messages(
                    a,
                    user,
                    content_subtypes(messages),
                    times,
                    messages.len() as int,
                ),
            )
    }
}

/// Handles the floor control messages of the participant at `seat`.
fn talk(room: &mut Room, seat: usize, messages: &Vec<MbcpMessage>) -> (r: (Vec<Effect>, FloorCounts))
    requires
        old(room).wf(),
        taken(old(room).slots@, seat as int),
    ensures
        final(room).wf(),
        taken(final(room).slots@, seat as int),
        talked(
            *old(room),
            *final(room),
            old(room).slots@[seat as int]->0.user_id@,
            messages@.map_values(|m: MbcpMessage| m@),
            r.0@,
            r.1,
        ),
{
    let user: String = match &room.slots[seat] {
        Some(p) => p.user_id.clone(),
        None => String::new(),
    };
    let r = handle_mbcp_from_publish(room, user.as_str(), messages);
    proof {
        let views = messages@.map_values(|m: MbcpMessage| m@);
        assert(content_subtypes(views) =~= subtypes_of(messages@));
    }
    r
}

/// Whether one of the first `n` reports is on a video of `p`.
pub open spec fn reports_video(
    p: Participant,
    plain: Seq<u8>,
    srs: Seq<RtcpBlockRef>,
    n: int,
) -> bool
    decreases n,
{
    n > 0 && (reports_video(p, plain, srs, n - 1) || is_kind(
        p,
        report_source(block_bytes(plain, srs[n - 1])),
        TrackKind::Video,
    ))
}

/// Whether a control packet takes a report on a video of a simulcast room to
/// somebody who is ready to receive it.
pub open spec fn video_report_sent(room: Room, seat: int, plain: Seq<u8>) -> bool {
    let p = room.slots@[seat]->0;
    let srs = blocks_of(plain, 0, BlockKind::Sr);
    &&& room.simulcast_enabled
    &&& reports_video(p, plain, srs, srs.len() as int)
    &&& targets(room.slots@, p.user_id@, room.slots@.len() as int).len() > 0
}

fn sends_video_report(room: &Room, seat: usize, plain: &[u8], srs: &Vec<RtcpBlockRef>) -> (r: bool)
    requires
        taken(room.slots@, seat as int),
        srs@ == blocks_of(plain@, 0, BlockKind::Sr),
        blocks_within(plain@, srs@),
    ensures
        r == video_report_sent(*room, seat as int, plain@),
{
    if !room.simulcast_enabled {
        return false;
    }
    match &room.slots[seat] {
        Some(p) => {
            let mut found: bool = false;
            let mut i: usize = 0;
            while i < srs.len()
                invariant
                    i <= srs@.len(),
                    blocks_within(plain@, srs@),
                    found == reports_video(*p, plain@, srs@, i as int),
                decreases srs@.len() - i,
            {
                let source: u32 = source_of_report(block_slice(plain, &srs[i]));
                if has_kind(p, source, TrackKind::Video) {
                    found = true;
                }
                i += 1;
            }
            found && relay_targets(room, p.user_id.as_str()).len() > 0
        },
        None => false,
    }
}

/// A room in which the times of the reports of the participant at `seat` were
/// noted, and in which their video is seen under an SSRC where it has to be.
pub open spec fn reports_noted(
    a: Room,
    b: Room,
    seat: int,
    plain: Seq<u8>,
    fresh: u32,
) -> bool {
    let p = a.slots@[seat]->0;
    let q = b.slots@[seat]->0;
    let srs = blocks_of(plain, 0, BlockKind::Sr);
    &&& b == (Room { slots: b.slots, ..a })
    &&& b.slots@ == a.slots@.update(seat, Some(q))
    &&& q == (Participant {
        recv_stats: q.recv_stats,
        simulcast_video_ssrc: if video_report_sent(a, seat, plain) {
            vssrc_or(p, fresh)
        } else {
            p.simulcast_video_ssrc
        },
        ..p
    })
    &&& receptions(q.recv_stats@) == srs_noted(
        receptions(p.recv_stats@),
        plain,
        srs,
        srs.len() as int,
    )
}

/// What the subscribers get of a control packet.
pub open spec fn rtcp_relayed(room: Room, seat: int, plain: Seq<u8>) -> Seq<(usize, Seq<u8>)> {
    let p = room.slots@[seat]->0;
    let srs = blocks_bytes(plain, blocks_of(plain, 0, BlockKind::Sr));
    let feedback = blocks_bytes(plain, blocks_of(plain, 0, BlockKind::Relay));
    if publish_rtcp_relayed(room, srs, feedback, p.user_id@) {
        publish_rtcp_out(
            room,
            srs,
            feedback,
            p,
            p.simulcast_video_ssrc,
            room.slots@.len() as int,
        )
    } else {
        Seq::empty()
    }
}

/// A control packet of the participant at `seat`: floor control messages are
/// obeyed, reports noted, and reports and feedback relayed. `fresh` becomes the
/// SSRC under which their video is seen, should it need one.
pub fn process_publish_rtcp(room: &mut Room, seat: usize, plaintext: &[u8], fresh: u32) -> (r: PublishRtcp)
    requires
        old(room).wf(),
        taken(old(room).slots@, seat as int),
        fresh != 0,
    ensures
        final(room).wf(),
        exists|middle: Room| #[trigger]
            talked(
                *old(room),
                middle,
                old(room).slots@[seat as int]->0.user_id@,
                mbcp_messages(plaintext@, 0),
                r.effects@,
                r.counts,
            ) && reports_noted(middle, *final(room), seat as int, plaintext@, fresh),
        forwards_of(r.out@) == rtcp_relayed(*final(room), seat as int, plaintext@),
{
    let ghost start = *room;
    let parsed = split_compound_rtcp(plaintext);
    let (effects, counts) = talk(room, seat, &parsed.mbcp_blocks);
    let ghost middle = *room;
    let shown: bool = sends_video_report(room, seat, plaintext, &parsed.sr_blocks);
    match &mut room.slots[seat] {
        Some(p) => {
            consume_sender_reports(p, plaintext, &parsed.sr_blocks);
            if shown {
                let _vssrc: u32 = p.simulcast_video_ssrc_or(fresh);
            }
        },
        None => {},
    }
    proof {
        let q = room.slots@[seat as int]->0;
        assert(room.slots@ =~= middle.slots@.update(seat as int, Some(q)));
        lemma_one_participant(middle, *room, seat as int, q);
        assert(reports_noted(middle, *room, seat as int, plaintext@, fresh));
    }
    let srs = copy_blocks(plaintext, &parsed.sr_blocks);
    let feedback = copy_blocks(plaintext, &parsed.relay_blocks);
    let vssrc: u32 = match &room.slots[seat] {
        Some(p) => p.simulcast_video_ssrc,
        None => 0,
    };
    let out = relay_publish_rtcp_translated(room, seat, &srs, &feedback, vssrc);
    let r = PublishRtcp { effects, counts, out };
    assert(talked(
        start,
        middle,
        start.slots@[seat as int]->0.user_id@,
        mbcp_messages(plaintext@, 0),
        r.effects@,
        r.counts,
    ));
    r
}

// ---------------------------------------------------------------------------
// Control packets of a subscriber
// ---------------------------------------------------------------------------

/// One request for lost packets, answered.
pub open spec fn nack_answered(a: Room, b: Room, seat: int, block: Seq<u8>, r: NackAnswer) -> bool {
    let items = nack_items(block, 0);
    let s = nack_run(a, seat, items, items.len() as int);
    &&& nack_applied(a, b, seat, s)
    &&& runs(r.packets@) == s.sent
    &&& r.counts == s.counts
}

/// A chain of rooms in which one request after the other is answered.
pub open spec fn nacks_answered(
    rooms: Seq<Room>,
    seat: int,
    blocks: Seq<Seq<u8>>,
    answers: Seq<NackAnswer>,
) -> bool {
    &&& rooms.len() == blocks.len() + 1
    &&& answers.len() == blocks.len()
    &&& forall|i: int|
        0 <= i < blocks.len() ==> nack_answered(
            rooms[i],
            rooms[i + 1],
            seat,
            blocks[i],
            #[trigger] answers[i],
        )
}

/// A group of feedback on its way to its publisher: the place, the address and the
/// encrypted packet.
pub struct RelayedFeedback {
    pub publisher: usize,
    pub addr: SocketAddress,
    pub packet: Vec<u8>,
    /// How many key frames are asked for.
    pub plis: u64,
}

/// A group of feedback, encrypted for the publisher that it concerns.
pub open spec fn feedback_relayed(a: Room, b: Room, g: Feedback, r: Option<RelayedFeedback>) -> bool {
    match feedback_target(a, g.ssrc) {
        None => r is None && b == a,
        Some((i, addr)) => {
            let p = a.slots@[i]->0;
            let q = b.slots@[i]->0;
            &&& b == (Room { slots: b.slots, ..a })
            &&& b.slots@ == a.slots@.update(i, Some(q))
            &&& sealed_for(p, q)
            &&& sealed_rtcp(
                p.publish.outbound_srtp@,
                q.publish.outbound_srtp@,
                g.bytes,
                match r {
                    Some(x) => Some(x.packet@),
                    None => None,
                },
            )
            &&& r matches Some(x) ==> x.publisher == i && x.addr == addr && x.plis == g.plis
        },
    }
}

/// A chain of rooms in which one group after the other is relayed.
pub open spec fn groups_relayed(
    rooms: Seq<Room>,
    groups: Seq<Feedback>,
    out: Seq<Option<RelayedFeedback>>,
) -> bool {
    &&& rooms.len() == groups.len() + 1
    &&& out.len() == groups.len()
    &&& forall|i: int|
        0 <= i < groups.len() ==> feedback_relayed(
            rooms[i],
            rooms[i + 1],
            groups[i],
            #[trigger] out[i],
        )
}

fn relay_feedback(room: &mut Room, g: &FeedbackGroup) -> (r: Option<RelayedFeedback>)
    requires
        old(room).wf(),
    ensures
        final(room).wf(),
        feedback_relayed(*old(room), *final(room), g@, r),
        final(room).id == old(room).id,
        final(room).slots@.len() == old(room).slots@.len(),
        forall|i: int| #[trigger] taken(final(room).slots@, i) == taken(old(room).slots@, i),
        forall|i: int| #[trigger]
            taken(final(room).slots@, i) ==> final(room).slots@[i]->0.user_id == old(
                room,
            ).slots@[i]->0.user_id,
{
    let (i, addr): (usize, SocketAddress) = match find_feedback_target(room, g.ssrc) {
        Some(x) => x,
        None => {
            return None;
        },
    };
    let ghost start = *room;
    let mut sealed: Option<Vec<u8>> = None;
    match &mut room.slots[i] {
        Some(p) => {
            sealed = seal_for_publisher(p, &g.bytes);
        },
        None => {},
    }
    proof {
        let q = room.slots@[i as int]->0;
        assert(room.slots@ =~= start.slots@.update(i as int, Some(q)));
        lemma_one_participant(start, *room, i as int, q);
    }
    match sealed {
        Some(packet) => Some(RelayedFeedback { publisher: i, addr, packet, plis: g.plis }),
        None => None,
    }
}

/// What a control packet of a subscriber comes to.
pub struct SubscribeRtcp {
    /// The retransmissions, one answer for each request.
    pub answers: Vec<NackAnswer>,
    /// How many receiver reports ended here.
    pub reports: usize,
    /// The feedback for publishers, one entry for each group.
    pub feedback: Vec<Option<RelayedFeedback>>,
    pub effects: Vec<Effect>,
    pub counts: FloorCounts,
}

/// A control packet of the participant at `seat` as a subscriber: lost packets
/// are sent again out of the cache, reports end here, feedback goes to the
/// publishers, and floor control messages are obeyed.
#[verifier::opaque]
pub open spec fn subscribe_rtcp_done(
    rooms: Seq<Room>,
    sealed: Seq<Room>,
    b: Room,
    seat: int,
    plain: Seq<u8>,
    r: SubscribeRtcp,
) -> bool {
    let nacks = blocks_bytes(plain, blocks_of(plain, 0, BlockKind::Nack));
    let relay = blocks_of(plain, 0, BlockKind::Relay);
    &&& nacks_answered(rooms, seat, nacks, r.answers@)
    &&& r.reports == blocks_of(plain, 0, BlockKind::Rr).len()
    &&& sealed.len() > 0
    &&& sealed[0] == rooms.last()
    &&& groups_relayed(
        sealed,
        feedback_groups(rooms.last(), seat, plain, relay, relay.len() as int),
        r.feedback@,
    )
    &&& talked(
        sealed.last(),
        b,
        rooms[0].slots@[seat]->0.user_id@,
        mbcp_messages(plain, 0),
        r.effects@,
        r.counts,
    )
}

pub open spec fn subscribe_rtcp_handled(a: Room, b: Room, seat: int, plain: Seq<u8>, r: SubscribeRtcp) -> bool {
    exists|rooms: Seq<Room>, sealed: Seq<Room>|
        rooms[0] == a && #[trigger] subscribe_rtcp_done(rooms, sealed, b, seat, plain, r)
}

fn answer_nacks(room: &mut Room, seat: usize, blocks: &Vec<Vec<u8>>) -> (r: (
    Vec<NackAnswer>,
    Ghost<Seq<Room>>,
))
    requires
        old(room).wf(),
        taken(old(room).slots@, seat as int),
    ensures
        final(room).wf(),
        final(room).id == old(room).id,
        taken(final(room).slots@, seat as int),
        final(room).slots@[seat as int]->0.user_id == old(room).slots@[seat as int]->0.user_id,
        nacks_answered(r.1@, seat as int, runs(blocks@), r.0@),
        r.1@[0] == *old(room) && r.1@.last() == *final(room),
{
    let mut answers: Vec<NackAnswer> = Vec::new();
    let ghost mut rooms: Seq<Room> = seq![*room];
    let mut i: usize = 0;
    while i < blocks.len()
        invariant
            i <= blocks@.len(),
            room.wf(),
            room.id == old(room).id,
            taken(room.slots@, seat as int),
            room.slots@[seat as int]->0.user_id == old(room).slots@[seat as int]->0.user_id,
            rooms.len() == i + 1,
            answers@.len() == i,
            rooms[0] == *old(room) && rooms.last() == *room,
            forall|k: int|
                0 <= k < i ==> nack_answered(
                    rooms[k],
                    rooms[k + 1],
                    seat as int,
                    runs(blocks@)[k],
                    #[trigger] answers@[k],
                ),
        decreases blocks@.len() - i,
    {
        let ghost before = *room;
        let ghost kept = rooms;
        let a = handle_nack_block(room, seat, &blocks[i]);
        proof {
            rooms = rooms.push(*room);
            assert(runs(blocks@)[i as int] == blocks@[i as int]@);
            assert(nack_answered(before, *room, seat as int, blocks@[i as int]@, a));
            assert forall|k: int| 0 <= k <= i implies #[trigger] rooms[k] == kept[k] by {}
        }
        answers.push(a);
        i += 1;
    }
    (answers, Ghost(rooms))
}

fn relay_groups(room: &mut Room, seat: usize, groups: &Vec<FeedbackGroup>) -> (r: (
    Vec<Option<RelayedFeedback>>,
    Ghost<Seq<Room>>,
))
    requires
        old(room).wf(),
        taken(old(room).slots@, seat as int),
    ensures
        final(room).wf(),
        final(room).id == old(room).id,
        taken(final(room).slots@, seat as int),
        final(room).slots@[seat as int]->0.user_id == old(room).slots@[seat as int]->0.user_id,
        groups_relayed(r.1@, groups_of(groups@), r.0@),
        r.1@[0] == *old(room) && r.1@.last() == *final(room),
{
    let mut out: Vec<Option<RelayedFeedback>> = Vec::new();
    let ghost mut rooms: Seq<Room> = seq![*room];
    let mut i: usize = 0;
    while i < groups.len()
        invariant
            i <= groups@.len(),
            room.wf(),
            room.id == old(room).id,
            taken(room.slots@, seat as int),
            room.slots@[seat as int]->0.user_id == old(room).slots@[seat as int]->0.user_id,
            rooms.len() == i + 1,
            out@.len() == i,
            rooms[0] == *old(room) && rooms.last() == *room,
            forall|k: int|
                0 <= k < i ==> feedback_relayed(
                    rooms[k],
                    rooms[k + 1],
                    groups_of(groups@)[k],
                    #[trigger] out@[k],
                ),
        decreases groups@.len() - i,
    {
        let ghost before = *room;
        let ghost kept = rooms;
        let x = relay_feedback(room, &groups[i]);
        proof {
            assert(taken(room.slots@, seat as int) == taken(before.slots@, seat as int));
            rooms = rooms.push(*room);
            assert(groups_of(groups@)[i as int] == groups@[i as int]@);
            assert forall|k: int| 0 <= k <= i implies #[trigger] rooms[k] == kept[k] by {}
        }
        out.push(x);
        i += 1;
    }
    (out, Ghost(rooms))
}

pub fn handle_subscribe_rtcp(room: &mut Room, seat: usize, plaintext: &[u8]) -> (r: SubscribeRtcp)
    requires
        old(room).wf(),
        taken(old(room).slots@, seat as int),
    ensures
        final(room).wf(),
        final(room).id == old(room).id,
        subscribe_rtcp_handled(*old(room), *final(room), seat as int, plaintext@, r),
{
    let ghost start = *room;
    let parsed = split_compound_rtcp(plaintext);
    proof {
        let nacks = blocks_bytes(plaintext@, blocks_of(plaintext@, 0, BlockKind::Nack));
        assert(runs(parsed.nack_blocks@) =~= nacks);
    }
    let (answers, rooms) = answer_nacks(room, seat, &parsed.nack_blocks);
    let groups = group_feedback(room, seat, plaintext, &parsed.relay_blocks);
    let (feedback, sealed) = relay_groups(room, seat, &groups);
    let (effects, counts) = talk(room, seat, &parsed.mbcp_blocks);
    let r = SubscribeRtcp { answers, reports: parsed.rr_blocks.len(), feedback, effects, counts };
    assert(subscribe_rtcp_done(rooms@, sealed@, *room, seat as int, plaintext@, r)) by {
        reveal(subscribe_rtcp_done);
    }
    r
}

// ---------------------------------------------------------------------------
// Datagrams
// ---------------------------------------------------------------------------

/// What a datagram on the media port comes to.
pub enum MediaOutcome {
    /// Nobody was seen at the address.
    Unknown,
    NotReady,
    NotRtcp,
    Malformed,
    Failed(SrtpError),
    /// A random number was needed and the system had none to give.
    NoRandom,
    Media(RtpRelay),
    PublisherRtcp(PublishRtcp),
    SubscriberRtcp(SubscribeRtcp),
}

/// What a control packet of a publisher comes to, whichever SSRC their video may
/// be given.
pub open spec fn publish_rtcp_done(a: Room, b: Room, seat: int, plain: Seq<u8>, fresh: u32, r: PublishRtcp) -> bool {
    &&& forwards_of(r.out@) == rtcp_relayed(b, seat, plain)
    &&& exists|middle: Room| #[trigger]
        talked(
            a,
            middle,
            a.slots@[seat]->0.user_id@,
            mbcp_messages(plain, 0),
            r.effects@,
            r.counts,
        ) && reports_noted(middle, b, seat, plain, fresh)
}

/// What a media packet of a publisher comes to, whichever SSRC their video may be
/// given.
pub open spec fn publish_rtp_done(
    a: Room,
    b: Room,
    seat: int,
    plain: Seq<u8>,
    now_ms: u64,
    fresh: u32,
    retry: Seq<bool>,
    r: RtpRelay,
) -> bool {
    &&& r.header == rtp_header(plain)
    &&& exists|counted: Room, sent: Room| #[trigger]
        rtp_relayed(counted, sent, b, seat, plain, fresh, retry, r) && stats_collected(
            a,
            counted,
            seat,
            plain,
            now_ms,
            r.sample,
        )
}

/// Whether a media packet of a participant is to be seen under an SSRC that their
/// video does not have yet: it is of a simulcast layer.
pub open spec fn media_needs_ssrc(room: Room, seat: int, plain: Seq<u8>) -> bool {
    let p = room.slots@[seat]->0;
    let h = rtp_header(plain);
    &&& room.simulcast_enabled
    &&& p.simulcast_video_ssrc == 0
    &&& h.pt == config::VP8_PAYLOAD_TYPE
    &&& rid_of(p, h.ssrc) is Some
}

/// Whether a control packet of a participant is to speak of an SSRC that their
/// video does not have yet.
pub open spec fn reports_need_ssrc(room: Room, seat: int, plain: Seq<u8>) -> bool {
    room.slots@[seat]->0.simulcast_video_ssrc == 0 && video_report_sent(room, seat, plain)
}

/// What an opened media packet comes to.
pub open spec fn rtp_handled(
    a: Room,
    b: Room,
    seat: int,
    plain: Seq<u8>,
    now_ms: u64,
    retry: Seq<bool>,
    r: MediaOutcome,
) -> bool {
    match r {
        MediaOutcome::NoRandom => media_needs_ssrc(a, seat, plain) && b == a,
        MediaOutcome::Media(x) => exists|fresh: u32|
            fresh != 0 && #[trigger] publish_rtp_done(
                a,
                b,
                seat,
                plain,
                now_ms,
                fresh,
                retry,
                x,
            ),
        _ => false,
    }
}

/// What an opened control packet comes to.
pub open spec fn rtcp_handled(a: Room, b: Room, seat: int, pc: PcType, plain: Seq<u8>, r: MediaOutcome) -> bool {
    match pc {
        PcType::Publish => match r {
            MediaOutcome::NoRandom => reports_need_ssrc(a, seat, plain) && b == a,
            MediaOutcome::PublisherRtcp(x) => exists|fresh: u32|
                fresh != 0 && #[trigger] publish_rtcp_done(a, b, seat, plain, fresh, x),
            _ => false,
        },
        PcType::Subscribe => match r {
            MediaOutcome::SubscriberRtcp(x) => subscribe_rtcp_handled(a, b, seat, plain, x),
            _ => false,
        },
    }
}

/// What an opened packet comes to in the room of its sender.
pub open spec fn opening_handled(
    a: Room,
    b: Room,
    seat: int,
    pc: PcType,
    o: Opening,
    now_ms: u64,
    retry: Seq<bool>,
    r: MediaOutcome,
) -> bool {
    match o {
        Opening::NotReady => r is NotReady && b == a,
        Opening::NotRtcp => r is NotRtcp && b == a,
        Opening::Malformed => r is Malformed && b == a,
        Opening::Failed(e) => r == MediaOutcome::Failed(e) && b == a,
        Opening::Rtp(plain) => rtp_handled(a, b, seat, plain@, now_ms, retry, r),
        Opening::Rtcp(plain) => rtcp_handled(a, b, seat, pc, plain@, r),
    }
}

fn media_wants_ssrc(room: &Room, seat: usize, plain: &[u8]) -> (r: bool)
    requires
        taken(room.slots@, seat as int),
    ensures
        r == media_needs_ssrc(*room, seat as int, plain@),
{
    let h = parse_rtp_header(plain);
    if !room.simulcast_enabled || h.pt != config::VP8_PAYLOAD_TYPE {
        return false;
    }
    match &room.slots[seat] {
        Some(p) => p.simulcast_video_ssrc == 0 && match find_track(&p.tracks, h.ssrc) {
            Some(t) => p.tracks[t].rid.is_some(),
            None => false,
        },
        None => false,
    }
}

fn reports_want_ssrc(room: &Room, seat: usize, plain: &[u8]) -> (r: bool)
    requires
        taken(room.slots@, seat as int),
    ensures
        r == reports_need_ssrc(*room, seat as int, plain@),
{
    let parsed = split_compound_rtcp(plain);
    let needed: bool = sends_video_report(room, seat, plain, &parsed.sr_blocks);
    match &room.slots[seat] {
        Some(p) => p.simulcast_video_ssrc == 0 && needed,
        None => false,
    }
}

/// A number that can become an SSRC: a random one where it is needed.
fn fresh_ssrc(needed: bool) -> (r: Option<u32>)
    ensures
        match r {
            Some(v) => v != 0,
            None => needed,
        },
{
    if needed {
        random_nonzero_u32()
    } else {
        Some(1)
    }
}

fn handle_rtp(
    room: &mut Room,
    seat: usize,
    plain: &[u8],
    now_ms: u64,
    retry: &Vec<bool>,
) -> (r: MediaOutcome)
    requires
        old(room).wf(),
        taken(old(room).slots@, seat as int),
        now_ms * config::CLOCK_RATE_VIDEO <= i64::MAX,
    ensures
        final(room).wf(),
        final(room).id == old(room).id,
        rtp_handled(*old(room), *final(room), seat as int, plain@, now_ms, retry@, r),
{
    let ghost start = *room;
    match fresh_ssrc(media_wants_ssrc(room, seat, plain)) {
        Some(fresh) => {
            let x = handle_publish_rtp(room, seat, plain, now_ms, fresh, retry);
            assert(publish_rtp_done(
                start,
                *room,
                seat as int,
                plain@,
                now_ms,
                fresh,
                retry@,
                x,
            ));
            MediaOutcome::Media(x)
        },
        None => MediaOutcome::NoRandom,
    }
}

fn handle_publisher_rtcp(room: &mut Room, seat: usize, plain: &[u8]) -> (r: MediaOutcome)
    requires
        old(room).wf(),
        taken(old(room).slots@, seat as int),
    ensures
        final(room).wf(),
        final(room).id == old(room).id,
        rtcp_handled(*old(room), *final(room), seat as int, PcType::Publish, plain@, r),
{
    let ghost start = *room;
    match fresh_ssrc(reports_want_ssrc(room, seat, plain)) {
        Some(fresh) => {
            let x = process_publish_rtcp(room, seat, plain, fresh);
            let r = MediaOutcome::PublisherRtcp(x);
            assert(publish_rtcp_done(
                start,
                *room,
                seat as int,
                plain@,
                fresh,
                r->PublisherRtcp_0,
            ));
            r
        },
        None => MediaOutcome::NoRandom,
    }
}

fn handle_subscriber_rtcp(room: &mut Room, seat: usize, plain: &[u8]) -> (r: MediaOutcome)
    requires
        old(room).wf(),
        taken(old(room).slots@, seat as int),
    ensures
        final(room).wf(),
        final(room).id == old(room).id,
        rtcp_handled(*old(room), *final(room), seat as int, PcType::Subscribe, plain@, r),
{
    let x = handle_subscribe_rtcp(room, seat, plain);
    MediaOutcome::SubscriberRtcp(x)
}

fn handle_opening(
    room: &mut Room,
    seat: usize,
    pc: PcType,
    o: Opening,
    now_ms: u64,
    retry: &Vec<bool>,
) -> (r: MediaOutcome)
    requires
        old(room).wf(),
        taken(old(room).slots@, seat as int),
        now_ms * config::CLOCK_RATE_VIDEO <= i64::MAX,
    ensures
        final(room).wf(),
        final(room).id == old(room).id,
        opening_handled(*old(room), *final(room), seat as int, pc, o, now_ms, retry@, r),
{
    match o {
        Opening::NotReady => MediaOutcome::NotReady,
        Opening::NotRtcp => MediaOutcome::NotRtcp,
        Opening::Malformed => MediaOutcome::Malformed,
        Opening::Failed(e) => MediaOutcome::Failed(e),
        Opening::Rtp(plain) => handle_rtp(room, seat, &plain, now_ms, retry),
        Opening::Rtcp(plain) => match pc {
            PcType::Publish => handle_publisher_rtcp(room, seat, &plain),
            PcType::Subscribe => handle_subscriber_rtcp(room, seat, &plain),
        },
    }
}

/// What a datagram comes to: the sender is found by the address and gives a sign
/// of life, and what the packet turns out to be is handled in their room.
pub open spec fn datagram_handled(
    a: RoomHub,
    middle: RoomHub,
    b: RoomHub,
    buf: Seq<u8>,
    remote: SocketAddress,
    now_ms: u64,
    retry: Seq<bool>,
    o: Opening,
    r: MediaOutcome,
) -> bool {
    match a.find_addr(remote) {
        None => r is Unknown && hub_unchanged(a, b),
        Some((room, seat, pc)) => {
            let p = a.slots@[room as int]->0.slots@[seat as int]->0;
            let q = middle.slots@[room as int]->0.slots@[seat as int]->0;
            let y = b.slots@[room as int]->0;
            &&& seat_changed(a, middle, room as int, seat as int, q)
            &&& packet_opened(Participant { last_seen: now_ms, ..p }, q, pc, buf, o)
            &&& b.slots@ == middle.slots@.update(room as int, Some(y))
            &&& b.rooms == a.rooms
            &&& indices_unchanged(a, b)
            &&& opening_handled(
                middle.slots@[room as int]->0,
                y,
                seat as int,
                pc,
                o,
                now_ms,
                retry,
                r,
            )
        },
    }
}

/// What a datagram comes to, with the places of its sender: of the room, and of
/// the participant in it.
pub struct MediaReport {
    pub sender: Option<(usize, usize)>,
    pub outcome: MediaOutcome,
}

/// A datagram on the media port. `retry` says, for the places of the sender's room,
/// for whom it is time to ask again for a key frame that has not come.
pub fn handle_srtp(
    hub: &mut RoomHub,
    buf: &[u8],
    remote: SocketAddress,
    now_ms: u64,
    retry: &Vec<bool>,
) -> (r: MediaReport)
    requires
        old(hub).wf(),
        now_ms * config::CLOCK_RATE_VIDEO <= i64::MAX,
    ensures
        final(hub).wf(),
        r.sender == (match old(hub).find_addr(remote) {
            Some((room, seat, _)) => Some((room, seat)),
            None => None,
        }),
        exists|middle: RoomHub, o: Opening| #[trigger]
            datagram_handled(
                *old(hub),
                middle,
                *final(hub),
                buf@,
                remote,
                now_ms,
                retry@,
                o,
                r.outcome,
            ),
{
    let ghost start = *hub;
    let (room, seat, pc, opening) = match open_media(hub, buf, remote, now_ms) {
        Some(x) => x,
        None => {
            assert(datagram_handled(
                start,
                *hub,
                *hub,
                buf@,
                remote,
                now_ms,
                retry@,
                Opening::NotReady,
                MediaOutcome::Unknown,
            ));
            return MediaReport { sender: None, outcome: MediaOutcome::Unknown };
        },
    };
    let ghost middle = *hub;
    let ghost o = opening;
    assert(open_at(middle.slots@, room as int));
    let outcome: MediaOutcome = match &mut hub.slots[room] {
        Some(r) => handle_opening(r, seat, pc, opening, now_ms, retry),
        None => MediaOutcome::Unknown,
    };
    proof {
        lemma_replaced(middle, *hub, room as int);
        assert(datagram_handled(
            start,
            middle,
            *hub,
            buf@,
            remote,
            now_ms,
            retry@,
            o,
            outcome,
        ));
    }
    MediaReport { sender: Some((room, seat)), outcome }
}

} // verus!
