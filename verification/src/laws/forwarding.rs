//! Laws of forwarding media: who gets which packets of whom, and what is counted of
//! them.

use vstd::prelude::*;

use crate::config::RoomMode;
use crate::laws::lookup::{
    law_reception_by_ssrc, law_sent_by_ssrc, law_track_by_kind, law_track_by_layer,
    law_track_by_ssrc, of_kind, of_layer, with_ssrc,
};
use crate::laws::stream::rtp_preamble;
use crate::room::participant::{
    after_layer_packet, fresh_layer, layer_packet, layer_place, layer_seq, layer_ts,
    layers_distinct, lemma_layers_distinct, lemma_place_names, receptions, Layer, Participant,
    SimulcastRewriter, TrackKind,
};
use crate::room::ptt_rewriter::{after_rewrite, law_rewrite_touches_header_only, vp8_keyframe};
use crate::room::room::{taken, Room};
use crate::signaling::effect::pli_target;
use crate::transport::udp::egress::{is_counted, payload_len, sent_noted};
use crate::transport::udp::fanout::{
    asking_for, asks_key_frame, fanout_applied, fanout_outcome, high_layer_pli, layer_forwards,
    layer_step, offered, pipeline_after, rid_of, simulcast_applied, LayerPacket, SimulcastFanout,
};
use crate::transport::udp::ingress::{
    clock_rate_of, fanout_bytes, is_rtcp_packet, layers_sent, rtp_relayed, stats_collected,
    with_packet, RtpRelay,
};
use crate::transport::udp::rtcp::{rtp_header, RtpHeader};
use crate::transport::udp::rtcp_terminator::{after_packet, Reception, SendStats};
use crate::wire::{be16, be32, lemma_be16_roundtrip, lemma_be32_roundtrip};

verus! {

// ---------------------------------------------------------------------------
// Conference and push-to-talk
// ---------------------------------------------------------------------------

/// Whether a member has the floor.
pub open spec fn speaks(room: Room, user: Seq<char>) -> bool {
    room.floor@.burst is Some && room.floor@.burst->0.speaker == user
}

/// In a conference each packet is forwarded as it is.
pub proof fn law_conference_forwards_all(room: Room, user: Seq<char>, p: Seq<u8>, pt: u8)
    requires
        room.mode != RoomMode::Ptt,
    ensures
        fanout_bytes(fanout_outcome(room, user, p, pt)) == Some(p),
{
}

/// In a push-to-talk room whoever does not have the floor is not heard.
pub proof fn law_only_speaker_is_heard(room: Room, user: Seq<char>, p: Seq<u8>, pt: u8)
    requires
        room.mode == RoomMode::Ptt,
        !speaks(room, user),
    ensures
        fanout_bytes(fanout_outcome(room, user, p, pt)) is None,
{
}

/// In a push-to-talk room the speaker's Opus packets come out under the SSRC of the
/// room's audio stream, their VP8 packets under that of its video stream, from the
/// first key frame on. Only the header changes.
pub proof fn law_speaker_is_heard(room: Room, user: Seq<char>, p: Seq<u8>)
    requires
        room.wf(),
        room.mode == RoomMode::Ptt,
        speaks(room, user),
        p.len() >= 12,
    ensures
        room.audio_rewriter@.speaker == Some(user) && !room.audio_rewriter@.pending_keyframe ==> {
            let o = fanout_bytes(fanout_outcome(room, user, p, 111));
            &&& o is Some
            &&& be32(o->0, 8) == room.audio_rewriter@.ssrc
            &&& o->0.len() == p.len()
            &&& o->0.subrange(12, p.len() as int) == p.subrange(12, p.len() as int)
        },
        room.video_rewriter@.speaker == Some(user) ==> {
            let o = fanout_bytes(fanout_outcome(room, user, p, 96));
            &&& o is None <==> room.video_rewriter@.pending_keyframe && !vp8_keyframe(p)
            &&& o is Some ==> {
                &&& be32(o->0, 8) == room.video_rewriter@.ssrc
                &&& o->0.len() == p.len()
                &&& o->0.subrange(12, p.len() as int) == p.subrange(12, p.len() as int)
            }
        },
        forall|pt: u8|
            pt != 111 && pt != 96 ==> fanout_bytes(#[trigger] fanout_outcome(room, user, p, pt))
                == Some(p),
{
    law_rewrite_touches_header_only(room.audio_rewriter@, p);
    law_rewrite_touches_header_only(room.video_rewriter@, p);
}

/// A packet moves only the stream of its kind, only where its sender has the floor,
/// and of the participants only the counts of its sender.
pub proof fn law_packet_moves_one_stream(a: Room, b: Room, sender: int, p: Seq<u8>, pt: u8, i: int)
    requires
        taken(a.slots@, sender),
        fanout_applied(a, b, sender, p, pt),
        0 <= i < a.slots@.len(),
    ensures
        pt != 111 || !speaks(a, a.slots@[sender]->0.user_id@) || a.mode != RoomMode::Ptt
            ==> b.audio_rewriter@ == a.audio_rewriter@,
        pt != 96 || !speaks(a, a.slots@[sender]->0.user_id@) || a.mode != RoomMode::Ptt
            ==> b.video_rewriter@ == a.video_rewriter@,
        b.floor == a.floor,
        i != sender ==> b.slots@[i] == a.slots@[i],
        b.slots@[sender] is Some,
        b.slots@[sender]->0 == (Participant {
            pipeline: b.slots@[sender]->0.pipeline,
            ..a.slots@[sender]->0
        }),
{
}

/// Of each packet one thing is counted at most: that it was held back because its
/// sender does not have the floor, that it was held back until a key frame, or that
/// it was moved into the room's stream.
pub proof fn law_packet_is_counted_once(room: Room, user: Seq<char>, p: Seq<u8>, pt: u8)
    ensures
        forall|s: crate::room::participant::PipelineStats|
            {
                let t = #[trigger] pipeline_after(s, fanout_outcome(room, user, p, pt));
                &&& room.mode != RoomMode::Ptt ==> t == s
                &&& room.mode == RoomMode::Ptt && !speaks(room, user) ==> t.pub_rtp_gated
                    == s.pub_rtp_gated.wrapping_add(1) && t.pub_rtp_rewritten == s.pub_rtp_rewritten
                    && t.pub_video_pending == s.pub_video_pending
                &&& room.mode == RoomMode::Ptt && speaks(room, user) && fanout_bytes(
                    fanout_outcome(room, user, p, pt),
                ) is None ==> t.pub_video_pending == s.pub_video_pending.wrapping_add(1)
                    && t.pub_rtp_gated == s.pub_rtp_gated && t.pub_rtp_rewritten
                    == s.pub_rtp_rewritten
                &&& fanout_outcome(room, user, p, pt) is Rewritten ==> t.pub_rtp_rewritten
                    == s.pub_rtp_rewritten.wrapping_add(1) && t.pub_rtp_gated == s.pub_rtp_gated
                    && t.pub_video_pending == s.pub_video_pending
                &&& t.pub_rtp_in == s.pub_rtp_in && t.sub_rtp_relayed == s.sub_rtp_relayed
                    && t.sub_rtp_dropped == s.sub_rtp_dropped && t.sub_sr_relayed
                    == s.sub_sr_relayed
            },
{
}

/// Without simulcast a packet that is forwarded goes to all other members whose
/// connection is ready, and to nobody else; one that is not goes to nobody.
pub proof fn law_forwarded_to_others(
    counted: Room,
    sent: Room,
    b: Room,
    seat: int,
    plain: Seq<u8>,
    fresh: u32,
    retry: Seq<bool>,
    r: RtpRelay,
    i: int,
)
    requires
        taken(counted.slots@, seat),
        counted.slots@.len() <= usize::MAX,
        !counted.simulcast_enabled,
        rtp_relayed(counted, sent, b, seat, plain, fresh, retry, r),
        taken(counted.slots@, i),
    ensures
        r.to@.contains(i as usize) <==> fanout_bytes(r.outcome@) is Some
            && counted.slots@[i]->0.user_id@ != counted.slots@[seat]->0.user_id@
            && counted.slots@[i]->0.subscribe.inbound_srtp@ is Some,
        r.to@.no_duplicates(),
        r.layers.forwards@.len() == 0,
{
    let user = counted.slots@[seat]->0.user_id@;
    let n = sent.slots@.len() as int;
    crate::transport::udp::fanout::law_targets(sent.slots@, user, n);
    assert(crate::transport::udp::fanout::is_target(sent.slots@, user, i) == (
    counted.slots@[i]->0.user_id@ != user && counted.slots@[i]->0.subscribe.inbound_srtp@ is Some));
}

// ---------------------------------------------------------------------------
// Simulcast layers
// ---------------------------------------------------------------------------

/// Whether a list of layers has one for a publisher, at a place.
pub open spec fn chosen_at(layers: Seq<Layer>, publisher: Seq<char>, k: int) -> bool {
    0 <= k < layers.len() && layers[k].publisher == publisher
}

proof fn lemma_chosen(layers: Seq<Layer>, publisher: Seq<char>, k: int)
    requires
        layers_distinct(layers),
        chosen_at(layers, publisher, k),
    ensures
        layer_place(layers, publisher) == Some(k),
{
    reveal(layers_distinct);
    lemma_place_names(layers, publisher);
}

/// A subscriber who has chosen a layer gets the packets of that layer only, none
/// while it is paused, and from the next key frame on where one is awaited. Their
/// choices stay.
pub proof fn law_only_chosen_layer(
    layers: Seq<Layer>,
    publisher: Seq<char>,
    rid: Seq<char>,
    vssrc: u32,
    p: Seq<u8>,
    keyframe: bool,
    k: int,
)
    requires
        layers_distinct(layers),
        chosen_at(layers, publisher, k),
    ensures
        ({
            let r = layer_step(layers, publisher, rid, vssrc, p, keyframe);
            let e = layers[k];
            let waits = !e.rewriter.initialized || e.rewriter.pending_keyframe;
            &&& r.1 is Some <==> e.rid == rid && rid != "pause"@ && p.len() >= 12 && (keyframe
                || !waits)
            &&& r.1 is None ==> r.0 == layers
            &&& r.0.len() == layers.len()
            &&& forall|j: int| 0 <= j < layers.len() && j != k ==> #[trigger] r.0[j] == layers[j]
            &&& r.0[k].rid == e.rid && r.0[k].publisher == publisher
            &&& r.1 is Some ==> r.0[k].rewriter.initialized && !r.0[k].rewriter.pending_keyframe
        }),
{
    lemma_chosen(layers, publisher, k);
}

/// A subscriber who has chosen nothing gets the high layer, from its first key
/// frame on, under the publisher's SSRC and with the publisher's own numbers.
pub proof fn law_high_layer_by_default(
    layers: Seq<Layer>,
    publisher: Seq<char>,
    rid: Seq<char>,
    vssrc: u32,
    p: Seq<u8>,
    keyframe: bool,
)
    requires
        layers_distinct(layers),
        forall|k: int| !#[trigger] chosen_at(layers, publisher, k),
    ensures
        ({
            let r = layer_step(layers, publisher, rid, vssrc, p, keyframe);
            &&& r.1 is Some <==> rid == "h"@ && p.len() >= 12 && keyframe
            &&& r.1 matches Some(v) ==> {
                &&& v.len() == p.len()
                &&& be16(v, 2) == be16(p, 2)
                &&& be32(v, 4) == be32(p, 4)
                &&& be32(v, 8) == vssrc
                &&& v.subrange(12, v.len() as int) == p.subrange(12, p.len() as int)
            }
            &&& r.0.len() == layers.len() + 1
            &&& r.0.drop_last() == layers
            &&& r.0.last().publisher == publisher
            &&& r.0.last().rid == "h"@
            &&& r.0.last().rewriter.virtual_ssrc == vssrc
            &&& r.0.last().rewriter.initialized == (r.1 is Some)
        }),
{
    lemma_place_names(layers, publisher);
    if let Some(k) = layer_place(layers, publisher) {
        assert(chosen_at(layers, publisher, k));
    }
    let e = Layer { publisher, rid: "h"@, rewriter: fresh_layer(vssrc) };
    let all = layers.push(e);
    lemma_layers_distinct(layers, e);
    assert(all.last().publisher == publisher);
    let r = layer_step(layers, publisher, rid, vssrc, p, keyframe);
    assert(r.0.drop_last() =~= layers);
    reveal_strlit("h");
    reveal_strlit("pause");
    assert("h"@.len() != "pause"@.len());
    if r.1 is Some {
        lemma_layer_packet(fresh_layer(vssrc), p);
    }
}

/// What a forwarded packet of a layer holds.
proof fn lemma_layer_packet(s: SimulcastRewriter, p: Seq<u8>)
    requires
        p.len() >= 12,
    ensures
        ({
            let v = layer_packet(s, p);
            &&& v.len() == p.len()
            &&& be16(v, 2) == layer_seq(s, p)
            &&& be32(v, 4) == layer_ts(s, p)
            &&& be32(v, 8) == s.virtual_ssrc
            &&& v.subrange(12, v.len() as int) == p.subrange(12, p.len() as int)
            &&& v[0] == p[0] && v[1] == p[1]
        }),
{
    let v = layer_packet(s, p);
    assert(v.subrange(2, 4) =~= crate::wire::be16_bytes(layer_seq(s, p)));
    lemma_be16_roundtrip(v, 2, layer_seq(s, p));
    assert(v.subrange(4, 8) =~= crate::wire::be32_bytes(layer_ts(s, p)));
    lemma_be32_roundtrip(v, 4, layer_ts(s, p));
    assert(v.subrange(8, 12) =~= crate::wire::be32_bytes(s.virtual_ssrc));
    lemma_be32_roundtrip(v, 8, s.virtual_ssrc);
    assert(v.subrange(12, v.len() as int) =~= p.subrange(12, p.len() as int));
}

/// Within a layer the distances of numbers and times are the publisher's, and all
/// packets have one SSRC: a packet that the publisher sent `d` behind another comes
/// out `d` behind it.
pub proof fn law_layer_keeps_distances(s: SimulcastRewriter, p: Seq<u8>, q: Seq<u8>)
    requires
        p.len() >= 12,
        q.len() >= 12,
    ensures
        ({
            let v = layer_packet(s, p);
            let w = layer_packet(after_layer_packet(s, p), q);
            &&& be16(w, 2).wrapping_sub(be16(v, 2)) == be16(q, 2).wrapping_sub(be16(p, 2))
            &&& be32(w, 4).wrapping_sub(be32(v, 4)) == be32(q, 4).wrapping_sub(be32(p, 4))
            &&& be32(v, 8) == s.virtual_ssrc
            &&& be32(w, 8) == s.virtual_ssrc
            &&& v[0] == p[0] && v[1] == p[1]
            &&& v.subrange(12, v.len() as int) == p.subrange(12, p.len() as int)
        }),
{
    lemma_layer_packet(s, p);
    lemma_layer_packet(after_layer_packet(s, p), q);
}

/// After a switch to another layer, the first packet follows the last one that was
/// sent, by one in number and by one tick in time, whatever the new layer's own
/// numbers are.
pub proof fn law_layers_join(s: SimulcastRewriter, p: Seq<u8>, q: Seq<u8>)
    requires
        p.len() >= 12,
        q.len() >= 12,
    ensures
        ({
            let v = layer_packet(s, p);
            let t = SimulcastRewriter { pending_keyframe: true, ..after_layer_packet(s, p) };
            let w = layer_packet(t, q);
            &&& be16(w, 2) == be16(v, 2).wrapping_add(1)
            &&& be32(w, 4) == be32(v, 4).wrapping_add(1)
            &&& be32(w, 8) == be32(v, 8)
        }),
{
    lemma_layer_packet(s, p);
    lemma_layer_packet(
        SimulcastRewriter { pending_keyframe: true, ..after_layer_packet(s, p) },
        q,
    );
}

/// A key frame is asked for when a subscriber begins to receive a publisher, and
/// again, where it is time to retry, for a packet of their layer that is held back.
pub proof fn law_key_frame_is_asked(
    layers: Seq<Layer>,
    publisher: Seq<char>,
    rid: Seq<char>,
    p: Seq<u8>,
    keyframe: bool,
    retry: bool,
    k: int,
)
    requires
        layers_distinct(layers),
    ensures
        (forall|j: int| !#[trigger] chosen_at(layers, publisher, j)) ==> asks_key_frame(
            layers,
            publisher,
            rid,
            p,
            keyframe,
            retry,
        ),
        chosen_at(layers, publisher, k) && p.len() >= 12 ==> asks_key_frame(
            layers,
            publisher,
            rid,
            p,
            keyframe,
            retry,
        ) == (retry && !keyframe && rid == layers[k].rid && rid != "pause"@ && (
        !layers[k].rewriter.initialized || layers[k].rewriter.pending_keyframe)),
{
    lemma_place_names(layers, publisher);
    if chosen_at(layers, publisher, k) {
        lemma_chosen(layers, publisher, k);
    } else if let Some(j) = layer_place(layers, publisher) {
        assert(chosen_at(layers, publisher, j));
    }
}

/// The request for a key frame goes to the publisher's high layer.
pub proof fn law_high_layer_is_asked(p: Participant)
    ensures
        match high_layer_pli(p) {
            Some((ssrc, addr)) => p.publish.address == Some(addr) && p.publish.inbound_srtp@ is Some
                && exists|i: int| #[trigger] of_layer(p.tracks@, "h"@, i) && p.tracks@[i].ssrc == ssrc,
            None => p.publish.address is None || p.publish.inbound_srtp@ is None || forall|i: int|
                !#[trigger] of_layer(p.tracks@, "h"@, i),
        },
{
    law_track_by_layer(p.tracks@, "h"@);
}

/// A packet of a layer goes to those other members whose connection is ready and
/// who are due it, each with the packet as their own layer makes it.
pub proof fn law_layer_forwards(slots: Seq<Option<Participant>>, q: LayerPacket, n: int)
    requires
        0 <= n <= slots.len() <= usize::MAX,
    ensures
        ({
            let out = layer_forwards(slots, q, n);
            &&& forall|k: int|
                0 <= k < out.len() ==> {
                    let i = (#[trigger] out[k]).0 as int;
                    &&& i < n && slots[i] is Some
                    &&& slots[i]->0.user_id@ != q.publisher
                    &&& slots[i]->0.subscribe.inbound_srtp@ is Some
                    &&& step_of(slots, i, q).1 == Some(out[k].1)
                }
            &&& forall|k: int, m: int|
                0 <= k < m < out.len() ==> (#[trigger] out[k]).0 < (#[trigger] out[m]).0
            &&& forall|i: int|
                0 <= i < n && (#[trigger] slots[i]) is Some && slots[i]->0.user_id@ != q.publisher
                    && slots[i]->0.subscribe.inbound_srtp@ is Some && step_of(
                    slots,
                    i,
                    q,
                ).1 is Some ==> exists|k: int| 0 <= k < out.len() && (#[trigger] out[k]).0 == i
        }),
    decreases n,
{
    if n > 0 {
        law_layer_forwards(slots, q, n - 1);
        let before = layer_forwards(slots, q, n - 1);
        let out = layer_forwards(slots, q, n);
        assert forall|k: int| 0 <= k < before.len() implies #[trigger] out[k] == before[k] by {}
        assert forall|i: int|
            0 <= i < n && (#[trigger] slots[i]) is Some && slots[i]->0.user_id@ != q.publisher
                && slots[i]->0.subscribe.inbound_srtp@ is Some && step_of(
                slots,
                i,
                q,
            ).1 is Some implies exists|k: int| 0 <= k < out.len() && (#[trigger] out[k]).0 == i by {
            if i < n - 1 {
                let k = choose|k: int| 0 <= k < before.len() && (#[trigger] before[k]).0 == i;
                assert(out[k] == before[k]);
            } else {
                assert(out[before.len() as int].0 == i);
            }
        }
    }
}

/// What a packet does to the layers of whoever has taken a place.
pub open spec fn step_of(slots: Seq<Option<Participant>>, i: int, q: LayerPacket) -> (
    Seq<Layer>,
    Option<Seq<u8>>,
) {
    layer_step(
        crate::room::participant::layers_of(slots[i]->0.subscribe_layers@),
        q.publisher,
        q.rid,
        q.vssrc,
        q.bytes,
        vp8_keyframe(q.bytes),
    )
}

/// A publisher is seen under one SSRC, which is drawn once: it is the fresh one only
/// where there was none before. A packet is offered as of the layer of its track.
pub proof fn law_publisher_keeps_ssrc(p: Participant, fresh: u32, payload: Seq<u8>, k: int)
    requires
        0 <= k < p.tracks@.len(),
        p.tracks@[k].rid is Some,
        forall|j: int| 0 <= j < k ==> !#[trigger] with_ssrc(p.tracks@, p.tracks@[k].ssrc, j),
    ensures
        ({
            let q = offered(p, p.tracks@[k].ssrc, fresh, payload);
            &&& q.publisher == p.user_id@
            &&& q.bytes == payload
            &&& q.rid == p.tracks@[k].rid->0@
            &&& p.simulcast_video_ssrc != 0 ==> q.vssrc == p.simulcast_video_ssrc
            &&& p.simulcast_video_ssrc == 0 ==> q.vssrc == fresh
        }),
        rid_of(p, p.tracks@[k].ssrc) is Some,
{
    law_track_by_ssrc(p.tracks@, p.tracks@[k].ssrc);
    assert(with_ssrc(p.tracks@, p.tracks@[k].ssrc, k));
}

// ---------------------------------------------------------------------------
// What is counted
// ---------------------------------------------------------------------------

/// A packet on a media connection is a control packet where its second byte is 200
/// to 207, as in all control packets, or 72 to 79, the same without the first bit.
pub proof fn law_control_packets(buf: Seq<u8>)
    requires
        buf.len() >= 2,
    ensures
        is_rtcp_packet(buf) <==> (200 <= buf[1] <= 207 || 72 <= buf[1] <= 79),
{
}

/// Opus runs at 48 kHz, all else at 90 kHz.
pub proof fn law_clock_rates(pt: u8)
    ensures
        clock_rate_of(pt) == (if pt == 111 { 48_000u32 } else { 90_000 }),
{
}

/// A packet is counted for its SSRC and no other; retransmissions, which are of
/// payload types 97 and 103, for none. VP8, which is 96, is kept for retransmission,
/// and nothing else is.
pub proof fn law_packet_is_collected(
    a: Room,
    b: Room,
    seat: int,
    plain: Seq<u8>,
    arrival_ms: u64,
    sample: Option<u64>,
    i: int,
)
    requires
        taken(a.slots@, seat),
        a.slots@[seat]->0.rtp_cache@.len() == 512,
        plain.len() >= 12,
        stats_collected(a, b, seat, plain, arrival_ms, sample),
        0 <= i < a.slots@[seat]->0.recv_stats@.len(),
    ensures
        b.slots@.len() == a.slots@.len(),
        forall|j: int|
            0 <= j < a.slots@.len() && j != seat ==> #[trigger] b.slots@[j] == a.slots@[j],
        b.slots@[seat] is Some,
        b.slots@[seat]->0.tracks == a.slots@[seat]->0.tracks,
        b.floor == a.floor && b.video_rewriter == a.video_rewriter,
        ({
            let p = a.slots@[seat]->0;
            let q = b.slots@[seat]->0;
            let pt = plain[1] % 128;
            let s = receptions(p.recv_stats@);
            let t = receptions(q.recv_stats@);
            &&& pt == 97 || pt == 103 ==> t == s
            &&& s[i].ssrc != be32(plain, 8) ==> t[i] == s[i]
            &&& pt != 97 && pt != 103 ==> exists|k: int|
                0 <= k < t.len() && (#[trigger] t[k]).ssrc == be32(plain, 8)
            &&& pt == 96 ==> q.rtp_cache@[be16(plain, 2) as int % 512] == Some(plain)
            &&& forall|k: int|
                0 <= k < 512 && (pt != 96 || k != be16(plain, 2) as int % 512)
                    ==> #[trigger] q.rtp_cache@[k] == p.rtp_cache@[k]
        }),
{
    let p = a.slots@[seat]->0;
    let q = b.slots@[seat]->0;
    let s = receptions(p.recv_stats@);
    let t = receptions(q.recv_stats@);
    let h = rtp_header(plain);
    law_reception_by_ssrc(s, h.ssrc);
    assert(s.len() == p.recv_stats@.len());
    if h.pt != 97 && h.pt != 103 {
        match crate::room::participant::recv_place(s, h.ssrc) {
            Some(k) => {
                assert(t[k].ssrc == h.ssrc);
            },
            None => {
                assert(t[s.len() as int].ssrc == h.ssrc);
            },
        }
    }
}

/// The bytes that are counted of a packet are those of its payload, behind the
/// contributing sources and the header extension.
pub proof fn law_payload_is_counted(head: Seq<u8>, csrcs: Seq<u8>, ext: Seq<u8>, payload: Seq<u8>)
    requires
        rtp_preamble(head, csrcs, ext),
    ensures
        payload_len(head + csrcs + ext + payload) == payload.len(),
{
    let p = head + csrcs + ext + payload;
    let fixed: int = 12 + csrcs.len() as int;
    crate::laws::stream::lemma_header_bits(head[0]);
    assert(p[0] == head[0]);
    if head[0] & 0x10 != 0 {
        assert(p[fixed + 2] == ext[2] && p[fixed + 3] == ext[3]);
        assert(be16(p, fixed + 2) == be16(ext, 2));
    }
}

/// What is sent is counted for its SSRC and no other, one packet and its payload;
/// retransmissions are not counted.
pub proof fn law_sent_is_counted(a: Seq<SendStats>, b: Seq<SendStats>, p: Seq<u8>, i: int)
    requires
        p.len() >= 12,
        sent_noted(a, b, p),
        0 <= i < a.len(),
        forall|j: int| 0 <= j < i ==> (#[trigger] a[j]).ssrc != a[i].ssrc,
    ensures
        p[1] % 128 == 97 || p[1] % 128 == 103 ==> b == a,
        a[i].ssrc != be32(p, 8) ==> b[i] == a[i],
        p[1] % 128 != 97 && p[1] % 128 != 103 && a[i].ssrc == be32(p, 8) ==> {
            &&& b.len() == a.len()
            &&& b[i].ssrc == a[i].ssrc && b[i].clock_rate == a[i].clock_rate
            &&& b[i].packets_sent == a[i].packets_sent.wrapping_add(1)
            &&& b[i].bytes_sent == a[i].bytes_sent.wrapping_add(
                (payload_len(p) % 0x1_0000_0000) as u32,
            )
            &&& b[i].last_rtp_ts == be32(p, 4)
            &&& b[i].last_send_time is Some
        },
{
    law_sent_by_ssrc(a, be32(p, 8));
    if crate::room::participant::send_at(a, be32(p, 8)) is None && is_counted(p) {
        assert(b.take(a.len() as int)[i] == b[i]);
    }
}

/// The first packet of a stream opens its count, with the clock of its payload type.
pub proof fn law_first_sent_is_counted(a: Seq<SendStats>, b: Seq<SendStats>, p: Seq<u8>)
    requires
        p.len() >= 12,
        sent_noted(a, b, p),
        p[1] % 128 != 97 && p[1] % 128 != 103,
        forall|j: int| 0 <= j < a.len() ==> (#[trigger] a[j]).ssrc != be32(p, 8),
    ensures
        b.len() == a.len() + 1,
        b.drop_last() == a,
        b.last().ssrc == be32(p, 8),
        b.last().clock_rate == (if p[1] % 128 == 111 { 48_000u32 } else { 90_000 }),
        b.last().packets_sent == 1,
        b.last().bytes_sent == payload_len(p) % 0x1_0000_0000,
        b.last().last_rtp_ts == be32(p, 4),
        b.last().last_send_time is Some,
{
    law_sent_by_ssrc(a, be32(p, 8));
    assert(b.drop_last() =~= b.take(a.len() as int));
}

/// Key frames and bitrates are asked of a publisher's first video track, and only
/// where their connection is ready and their address known.
pub proof fn law_publisher_is_asked(p: Participant, k: int)
    requires
        of_kind(p.tracks@, TrackKind::Video, k),
        forall|j: int| 0 <= j < k ==> !#[trigger] of_kind(p.tracks@, TrackKind::Video, j),
    ensures
        pli_target(p) == (if p.publish.inbound_srtp@ is Some && p.publish.address is Some {
            Some((p.tracks@[k].ssrc, p.publish.address->0))
        } else {
            None
        }),
{
    law_track_by_kind(p.tracks@, TrackKind::Video);
    assert(of_kind(p.tracks@, TrackKind::Video, k));
}

/// The first packet of an SSRC opens its counts, with the clock of its payload type and
/// no sender report yet; a later one goes on from what was counted.
pub proof fn law_reception_is_opened(stats: Seq<Reception>, h: RtpHeader, arrival_ms: u64, i: int)
    ensures
        (forall|j: int| 0 <= j < stats.len() ==> (#[trigger] stats[j]).ssrc != h.ssrc) ==> {
            let t = with_packet(stats, h, arrival_ms);
            &&& t.len() == stats.len() + 1
            &&& t.drop_last() == stats
            &&& t.last().ssrc == h.ssrc
            &&& t.last().clock_rate == (if h.pt == 111 { 48_000u32 } else { 90_000 })
            &&& t.last().max_seq == h.seq && t.last().base_seq == h.seq && t.last().cycles == 0
            &&& t.last().initialized && t.last().probation == 1 && t.last().received == 1
            &&& !t.last().sr_seen && t.last().expected_prior == 0 && t.last().received_prior == 0
        },
        0 <= i < stats.len() && stats[i].ssrc == h.ssrc && (forall|j: int|
            0 <= j < i ==> (#[trigger] stats[j]).ssrc != h.ssrc) ==> with_packet(
            stats,
            h,
            arrival_ms,
        ) == stats.update(i, after_packet(stats[i], h.seq, h.timestamp, arrival_ms).0),
{
    law_reception_by_ssrc(stats, h.ssrc);
    let t = with_packet(stats, h, arrival_ms);
    if forall|j: int| 0 <= j < stats.len() ==> (#[trigger] stats[j]).ssrc != h.ssrc {
        assert(t.drop_last() =~= stats);
    }
}

/// A packet that is moved into a stream moves the stream on by it, and one that is not
/// leaves it where it is.
pub proof fn law_stream_moves_with_packet(a: Room, b: Room, sender: int, p: Seq<u8>)
    requires
        taken(a.slots@, sender),
        a.mode == RoomMode::Ptt,
        speaks(a, a.slots@[sender]->0.user_id@),
        p.len() >= 12,
    ensures
        fanout_applied(a, b, sender, p, 111) && a.audio_rewriter@.speaker == Some(
            a.slots@[sender]->0.user_id@,
        ) && !a.audio_rewriter@.pending_keyframe ==> b.audio_rewriter@ == after_rewrite(
            a.audio_rewriter@,
            p,
        ),
        fanout_applied(a, b, sender, p, 96) && a.video_rewriter@.speaker == Some(
            a.slots@[sender]->0.user_id@,
        ) ==> b.video_rewriter@ == (if a.video_rewriter@.pending_keyframe && !vp8_keyframe(p) {
            a.video_rewriter@
        } else {
            after_rewrite(a.video_rewriter@, p)
        }),
        fanout_applied(a, b, sender, p, 111) && a.audio_rewriter@.speaker != Some(
            a.slots@[sender]->0.user_id@,
        ) ==> b.audio_rewriter@ == a.audio_rewriter@,
        fanout_applied(a, b, sender, p, 96) && a.video_rewriter@.speaker != Some(
            a.slots@[sender]->0.user_id@,
        ) ==> b.video_rewriter@ == a.video_rewriter@,
{
}

/// A packet of a layer changes the layers of those who may receive it, as the packet
/// moves them, and nothing else of them; the publisher has the SSRC that they are seen
/// under from then on. Everybody else is as before.
pub proof fn law_layers_move(a: Room, b: Room, sender: int, ssrc: u32, fresh: u32, payload: Seq<u8>, i: int)
    requires
        taken(a.slots@, sender),
        simulcast_applied(a, b, sender, ssrc, fresh, payload),
        0 <= i < a.slots@.len(),
    ensures
        b.slots@.len() == a.slots@.len(),
        b.slots@[sender] is Some,
        a.slots@[sender]->0.simulcast_video_ssrc != 0 ==> b.slots@[sender] == a.slots@[sender],
        a.slots@[sender]->0.simulcast_video_ssrc == 0 ==> b.slots@[sender]->0.simulcast_video_ssrc
            == fresh && b.slots@[sender]->0.tracks == a.slots@[sender]->0.tracks,
        i != sender && (a.slots@[i] is None || a.slots@[i]->0.user_id@
            == a.slots@[sender]->0.user_id@ || a.slots@[i]->0.subscribe.inbound_srtp@ is None)
            ==> b.slots@[i] == a.slots@[i],
        i != sender && a.slots@[i] is Some && a.slots@[i]->0.user_id@
            != a.slots@[sender]->0.user_id@ && a.slots@[i]->0.subscribe.inbound_srtp@ is Some ==> {
            let q = offered(a.slots@[sender]->0, ssrc, fresh, payload);
            &&& b.slots@[i] is Some
            &&& b.slots@[i]->0 == (Participant {
                subscribe_layers: b.slots@[i]->0.subscribe_layers,
                ..a.slots@[i]->0
            })
            &&& crate::room::participant::layers_of(b.slots@[i]->0.subscribe_layers@) == step_of(
                a.slots@,
                i,
                q,
            ).0
        },
        b.floor == a.floor && b.mode == a.mode,
{
    let q = offered(a.slots@[sender]->0, ssrc, fresh, payload);
    assert(b.slots@[i] is Some || b.slots@[i] is None);
    assert(crate::transport::udp::fanout::is_target(a.slots@, q.publisher, i) <==> (
    a.slots@[i] is Some && a.slots@[i]->0.user_id@ != q.publisher
        && a.slots@[i]->0.subscribe.inbound_srtp@ is Some));
}

/// Who asks for a key frame: each member for whom the packet calls for one, and nobody
/// else, in the order of their places.
pub proof fn law_who_asks(slots: Seq<Option<Participant>>, q: LayerPacket, retry: Seq<bool>, n: int)
    requires
        0 < n <= slots.len() <= usize::MAX,
    ensures
        ({
            let before = asking_for(slots, q, retry, n - 1);
            let all = asking_for(slots, q, retry, n);
            let p = slots[n - 1]->0;
            let asks = slots[n - 1] is Some && p.user_id@ != q.publisher
                && p.subscribe.inbound_srtp@ is Some && asks_key_frame(
                crate::room::participant::layers_of(p.subscribe_layers@),
                q.publisher,
                q.rid,
                q.bytes,
                vp8_keyframe(q.bytes),
                n - 1 < retry.len() && retry[n - 1],
            );
            &&& asks ==> all == before.push((n - 1) as usize)
            &&& !asks ==> all == before
        }),
        asking_for(slots, q, retry, 0).len() == 0,
{
}

/// With simulcast a packet of VP8 that is no layer goes to nobody; one of a layer goes to
/// those who are due it, and the publisher is asked for a key frame where anybody asks.
pub proof fn law_layers_are_sent(
    a: Room,
    b: Room,
    seat: int,
    bytes: Seq<u8>,
    ssrc: u32,
    fresh: u32,
    retry: Seq<bool>,
    l: SimulcastFanout,
)
    requires
        taken(a.slots@, seat),
        layers_sent(a, b, seat, bytes, ssrc, fresh, retry, l),
    ensures
        rid_of(a.slots@[seat]->0, ssrc) is None ==> b == a && l.forwards@.len() == 0
            && l.asking@.len() == 0 && l.pli is None,
        rid_of(a.slots@[seat]->0, ssrc) is Some ==> {
            let q = offered(a.slots@[seat]->0, ssrc, fresh, bytes);
            let n = a.slots@.len() as int;
            &&& l.forwards@.len() == layer_forwards(a.slots@, q, n).len()
            &&& forall|k: int|
                0 <= k < l.forwards@.len() ==> (#[trigger] l.forwards@[k]).0 == layer_forwards(
                    a.slots@,
                    q,
                    n,
                )[k].0 && l.forwards@[k].1@ == layer_forwards(a.slots@, q, n)[k].1
            &&& l.asking@ == asking_for(a.slots@, q, retry, n)
            &&& l.asking@.len() == 0 ==> l.pli is None
            &&& l.asking@.len() > 0 ==> l.pli == high_layer_pli(a.slots@[seat]->0)
        },
{
    if rid_of(a.slots@[seat]->0, ssrc) is Some {
        let q = offered(a.slots@[seat]->0, ssrc, fresh, bytes);
        let n = a.slots@.len() as int;
        let v = crate::transport::udp::fanout::forwards_of(l.forwards@);
        assert(v == layer_forwards(a.slots@, q, n));
        assert forall|k: int| 0 <= k < l.forwards@.len() implies (#[trigger] l.forwards@[k]).0
            == v[k].0 && l.forwards@[k].1@ == v[k].1 by {}
    }
}

/// With simulcast VP8 goes out by layers, and all else to all; without, everything goes
/// to all.
pub proof fn law_media_by_layers(
    counted: Room,
    sent: Room,
    b: Room,
    seat: int,
    plain: Seq<u8>,
    fresh: u32,
    retry: Seq<bool>,
    r: RtpRelay,
)
    requires
        plain.len() >= 12,
        rtp_relayed(counted, sent, b, seat, plain, fresh, retry, r),
    ensures
        ({
            let layered = counted.simulcast_enabled && plain[1] % 128 == 96;
            let goes = fanout_bytes(r.outcome@) is Some;
            &&& layered && goes ==> r.to@.len() == 0 && layers_sent(
                sent,
                b,
                seat,
                fanout_bytes(r.outcome@)->0,
                be32(plain, 8),
                fresh,
                retry,
                r.layers,
            )
            &&& !layered || !goes ==> b == sent && r.layers.forwards@.len() == 0
                && r.layers.pli is None && r.layers.asking@.len() == 0
            &&& !goes ==> r.to@.len() == 0
            &&& r.outcome@ == fanout_outcome(
                counted,
                counted.slots@[seat]->0.user_id@,
                plain,
                (plain[1] % 128) as u8,
            )
            &&& fanout_applied(counted, sent, seat, plain, (plain[1] % 128) as u8)
        }),
{
}

} // verus!
