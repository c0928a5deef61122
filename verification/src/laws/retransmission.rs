//! Laws of retransmission: what a subscriber asks for, in the numbers that it saw,
//! is answered with the packet that its publisher sent.

use vstd::prelude::*;

use crate::config::RoomMode;
use crate::laws::lookup::{
    law_choice_of_layer, law_member_by_name, law_publisher, law_seen_publisher, law_track_by_kind,
    law_track_by_layer, law_track_by_ssrc, of_kind, of_layer, publishes, seen_under, with_ssrc,
};
use crate::room::participant::{
    after_layer_packet, cached, law_layer_reverse, layer_packet, SimulcastRewriter, TrackKind,
};
use crate::room::ptt_rewriter::{
    after_rewrite, law_rewrite_touches_header_only, rewritten, virtual_seq, Stream,
};
use crate::room::room::{taken, Room};
use crate::transport::udp::nack::{
    nack_applied, nack_run, nack_seqs, nack_ssrc, nack_start, nack_step, rtx_packets, within_budget,
    NackCounts, NackRun,
};
use crate::transport::udp::rtcp::{law_rtx_restores, lost_seqs, NackItem};
use crate::wire::{be16, be32, lemma_be16_roundtrip};

verus! {

// ---------------------------------------------------------------------------
// What a request asks for
// ---------------------------------------------------------------------------

/// A request for one packet.
pub open spec fn request_for(media_ssrc: u32, pid: u16) -> NackItem {
    NackItem { media_ssrc, pid, blp: 0 }
}

proof fn lemma_no_mask(pid: u16, n: int)
    requires
        0 <= n <= 16,
    ensures
        crate::transport::udp::rtcp::blp_seqs(pid, 0, n).len() == 0,
    decreases n,
{
    if n > 0 {
        lemma_no_mask(pid, n - 1);
        let k: u16 = (n - 1) as u16;
        assert(0u16 & (1u16 << k) == 0) by (bit_vector);
    }
}

proof fn lemma_one_seq(room: Room, sub: int, media_ssrc: u32, pid: u16)
    ensures
        lost_seqs(pid, 0) =~= seq![pid],
        nack_seqs(room, sub, request_for(media_ssrc, pid)).len() == 1,
{
    lemma_no_mask(pid, 16);
}

/// In a push-to-talk room a request for a packet of the video stream is mapped
/// back: the number that the packet had in the stream leads to the one that its
/// sender gave it, right after it was sent on and after any further packet `q` of
/// the talk burst.
pub proof fn law_ptt_request_is_mapped_back(
    room: Room,
    later: Room,
    sub: int,
    s: Stream,
    p: Seq<u8>,
    q: Seq<u8>,
)
    requires
        !room.simulcast_enabled && room.mode == RoomMode::Ptt,
        !later.simulcast_enabled && later.mode == RoomMode::Ptt,
        p.len() >= 12,
        q.len() >= 12,
        room.video_rewriter@ == after_rewrite(s, p),
        later.video_rewriter@ == after_rewrite(after_rewrite(s, p), q),
    ensures
        ({
            let sent = be16(rewritten(s, p), 2);
            let ssrc = be32(rewritten(s, p), 8);
            &&& nack_seqs(room, sub, request_for(ssrc, sent)) == seq![be16(p, 2)]
            &&& nack_seqs(later, sub, request_for(ssrc, sent)) == seq![be16(p, 2)]
            &&& nack_seqs(later, sub, request_for(ssrc, be16(rewritten(after_rewrite(s, p), q), 2)))
                == seq![be16(q, 2)]
        }),
{
    let t = after_rewrite(s, p);
    law_rewrite_touches_header_only(s, p);
    law_rewrite_touches_header_only(t, q);
    let sent = be16(rewritten(s, p), 2);
    let ssrc = be32(rewritten(s, p), 8);
    let second = be16(rewritten(t, q), 2);
    lemma_one_seq(room, sub, ssrc, sent);
    lemma_one_seq(later, sub, ssrc, sent);
    lemma_one_seq(later, sub, ssrc, second);
    assert(nack_seqs(room, sub, request_for(ssrc, sent)) =~= seq![be16(p, 2)]);
    assert(nack_seqs(later, sub, request_for(ssrc, sent)) =~= seq![be16(p, 2)]);
    assert(nack_seqs(later, sub, request_for(ssrc, second)) =~= seq![be16(q, 2)]);
}

/// The same with a mask: a request for several packets of a talk burst asks for
/// packets that lie as far behind the first one as the request says.
pub proof fn law_ptt_mask_is_mapped_back(room: Room, sub: int, s: Stream, p: Seq<u8>, blp: u16, k: int)
    requires
        !room.simulcast_enabled && room.mode == RoomMode::Ptt,
        p.len() >= 12,
        room.video_rewriter@ == after_rewrite(s, p),
        0 <= k < lost_seqs(virtual_seq(s, p), blp).len(),
    ensures
        ({
            let item = NackItem { media_ssrc: room.video_rewriter@.ssrc, pid: virtual_seq(s, p), blp };
            let seqs = nack_seqs(room, sub, item);
            &&& seqs.len() == lost_seqs(item.pid, blp).len()
            &&& seqs[0] == be16(p, 2)
            &&& seqs[k].wrapping_sub(seqs[0]) == lost_seqs(item.pid, blp)[k].wrapping_sub(item.pid)
        }),
{
}

/// In a push-to-talk room a request for a packet of the video stream goes to the
/// video of whoever has the floor, or had it last.
pub proof fn law_ptt_request_finds_speaker(room: Room, sub: int, speaker: int, k: int, pid: u16, blp: u16)
    requires
        room.wf(),
        room.mode == RoomMode::Ptt,
        taken(room.slots@, speaker),
        room.floor@.burst is Some ==> room.floor@.burst->0.speaker == room.slots@[speaker]->0.user_id@,
        room.floor@.burst is None ==> room.floor@.prev_speaker == Some(
            room.slots@[speaker]->0.user_id@,
        ),
        of_kind(room.slots@[speaker]->0.tracks@, TrackKind::Video, k),
        forall|j: int|
            0 <= j < k ==> !#[trigger] of_kind(room.slots@[speaker]->0.tracks@, TrackKind::Video, j),
    ensures
        nack_ssrc(room, sub, (NackItem { media_ssrc: room.video_rewriter@.ssrc, pid, blp }))
            == room.slots@[speaker]->0.tracks@[k].ssrc,
{
    let tracks = room.slots@[speaker]->0.tracks@;
    law_member_by_name(room, room.slots@[speaker]->0.user_id@, speaker);
    law_track_by_kind(tracks, TrackKind::Video);
    assert(of_kind(tracks, TrackKind::Video, k));
}

/// In a room with simulcast a request for what is seen of a publisher goes to the
/// layer that the subscriber receives, and the number that the packet had for this
/// subscriber leads to the one that the publisher gave it.
pub proof fn law_layer_request_is_mapped_back(
    room: Room,
    sub: int,
    publisher: int,
    choice: int,
    track: int,
    s: SimulcastRewriter,
    p: Seq<u8>,
)
    requires
        room.wf(),
        room.simulcast_enabled,
        taken(room.slots@, sub),
        room.slots@[publisher]->0.simulcast_video_ssrc != 0,
        seen_under(room.slots@, room.slots@[publisher]->0.simulcast_video_ssrc, publisher),
        forall|j: int|
            0 <= j < publisher ==> !#[trigger] seen_under(
                room.slots@,
                room.slots@[publisher]->0.simulcast_video_ssrc,
                j,
            ),
        0 <= choice < room.slots@[sub]->0.subscribe_layers@.len(),
        room.slots@[sub]->0.subscribe_layers@[choice].publisher@
            == room.slots@[publisher]->0.user_id@,
        p.len() >= 12,
        room.slots@[sub]->0.subscribe_layers@[choice].rewriter == after_layer_packet(s, p),
        of_layer(
            room.slots@[publisher]->0.tracks@,
            room.slots@[sub]->0.subscribe_layers@[choice].rid@,
            track,
        ),
        forall|j: int|
            0 <= j < track ==> !#[trigger] of_layer(
                room.slots@[publisher]->0.tracks@,
                room.slots@[sub]->0.subscribe_layers@[choice].rid@,
                j,
            ),
    ensures
        ({
            let x = room.slots@[publisher]->0;
            let item = request_for(x.simulcast_video_ssrc, be16(layer_packet(s, p), 2));
            &&& nack_seqs(room, sub, item) == seq![be16(p, 2)]
            &&& nack_ssrc(room, sub, item) == x.tracks@[track].ssrc
        }),
{
    let x = room.slots@[publisher]->0;
    let y = room.slots@[sub]->0;
    let v = layer_packet(s, p);
    let n = crate::room::participant::layer_seq(s, p);
    assert(v.subrange(2, 4) =~= crate::wire::be16_bytes(n));
    lemma_be16_roundtrip(v, 2, n);
    law_layer_reverse(s, p);
    law_seen_publisher(room.slots@, x.simulcast_video_ssrc);
    assert(seen_under(room.slots@, x.simulcast_video_ssrc, publisher));
    law_choice_of_layer(y.subscribe_layers@, x.user_id@);
    assert(y.subscribe_layers@[choice].publisher@ == x.user_id@);
    law_track_by_layer(x.tracks@, y.subscribe_layers@[choice].rid@);
    assert(of_layer(x.tracks@, y.subscribe_layers@[choice].rid@, track));
    lemma_one_seq(room, sub, x.simulcast_video_ssrc, be16(v, 2));
    assert(nack_seqs(room, sub, request_for(x.simulcast_video_ssrc, be16(v, 2))) =~= seq![
        be16(p, 2),
    ]);
}

/// All other requests mean what they say: in a plain conference each one, in a
/// push-to-talk room all but those for the video stream, with simulcast all for
/// SSRCs that no publisher is seen under.
pub proof fn law_other_requests_are_plain(room: Room, sub: int, item: NackItem)
    requires
        !room.simulcast_enabled ==> room.mode != RoomMode::Ptt || item.media_ssrc
            != room.video_rewriter@.ssrc,
        room.simulcast_enabled ==> item.media_ssrc == 0 || forall|j: int| !#[trigger]
            seen_under(room.slots@, item.media_ssrc, j),
    ensures
        nack_ssrc(room, sub, item) == item.media_ssrc,
        nack_seqs(room, sub, item) == lost_seqs(item.pid, item.blp),
{
    law_seen_publisher(room.slots@, item.media_ssrc);
    assert(nack_seqs(room, sub, item) =~= lost_seqs(item.pid, item.blp));
}

// ---------------------------------------------------------------------------
// What the answer is
// ---------------------------------------------------------------------------

/// Whether the tracks with an SSRC are those of one publisher, at a place, who has
/// one such track, which has a retransmission stream.
pub open spec fn repaired_by(room: Room, ssrc: u32, i: int, k: int, rtx_ssrc: u32) -> bool {
    &&& publishes(room.slots@, ssrc, i)
    &&& forall|j: int| 0 <= j < i ==> !#[trigger] publishes(room.slots@, ssrc, j)
    &&& with_ssrc(room.slots@[i]->0.tracks@, ssrc, k)
    &&& forall|j: int| 0 <= j < k ==> !#[trigger] with_ssrc(room.slots@[i]->0.tracks@, ssrc, j)
    &&& room.slots@[i]->0.tracks@[k].rtx_ssrc == Some(rtx_ssrc)
}

/// A packet that its publisher's cache still holds is sent again, as long as the
/// subscriber has used less than 200 of the budget: under the SSRC and the next
/// number of the retransmission stream, with its own number in front of its
/// payload. The numbers of that stream and the use of the budget go up by one;
/// those of everybody else stay.
pub proof fn law_lost_packet_is_sent_again(
    room: Room,
    sub: int,
    item: NackItem,
    s: NackRun,
    i: int,
    k: int,
    rtx_ssrc: u32,
    p: Seq<u8>,
)
    requires
        item.blp == 0,
        repaired_by(room, nack_ssrc(room, sub, item), i, k, rtx_ssrc),
        0 <= i < s.rtx_seqs.len(),
        p.len() >= 12 + (p[0] % 16) * 4,
        nack_seqs(room, sub, item) == seq![be16(p, 2)],
        room.slots@[i]->0.rtp_cache@[be16(p, 2) as int % 512] == Some(p),
        s.budget_used < 200,
    ensures
        ({
            let t = nack_step(room, sub, item, s);
            let h = 12 + (p[0] % 16) * 4;
            let r = t.sent.last();
            &&& t.sent.len() == s.sent.len() + 1
            &&& t.sent.drop_last() == s.sent
            &&& r.len() == p.len() + 2
            &&& be16(r, 2) == s.rtx_seqs[i]
            &&& be32(r, 4) == be32(p, 4)
            &&& be32(r, 8) == rtx_ssrc
            &&& be16(r, h) == be16(p, 2)
            &&& r.subrange(h + 2, r.len() as int) == p.subrange(h, p.len() as int)
            &&& r[0] == p[0]
            &&& p[1] % 0x80 == 96 ==> r[1] == 97
            &&& t.rtx_seqs == s.rtx_seqs.update(i, s.rtx_seqs[i].wrapping_add(1))
            &&& t.budget_used == s.budget_used + 1
            &&& t.counts.rtx_sent == s.counts.rtx_sent.wrapping_add(1)
            &&& t.counts.seqs_requested == s.counts.seqs_requested.wrapping_add(1)
            &&& t.counts.cache_miss == s.counts.cache_miss
            &&& t.counts.budget_exceeded == s.counts.budget_exceeded
            &&& t.counts.publisher_not_found == s.counts.publisher_not_found
            &&& t.counts.no_rtx_ssrc == s.counts.no_rtx_ssrc
        }),
{
    let ssrc = nack_ssrc(room, sub, item);
    lemma_repairer(room, ssrc, i, k, rtx_ssrc);
    lemma_one_seq(room, sub, item.media_ssrc, item.pid);
    let seqs = nack_seqs(room, sub, item);
    let c = room.slots@[i]->0.rtp_cache@;
    law_rtx_restores(p, rtx_ssrc, s.rtx_seqs[i]);
    assert(cached(c, seqs[0]) == Some(p));
    assert(rtx_packets(c, seqs, rtx_ssrc, s.rtx_seqs[i], 0).len() == 0);
    let found = rtx_packets(c, seqs, rtx_ssrc, s.rtx_seqs[i], 1);
    let r = crate::transport::udp::rtcp::rtx_packet(p, rtx_ssrc, s.rtx_seqs[i]);
    assert(found =~= seq![r]);
    assert(within_budget(found, s.budget_used, 0).len() == 0);
    assert(within_budget(found, s.budget_used, 1) =~= seq![r]);
    let t = nack_step(room, sub, item, s);
    assert(t.sent =~= s.sent.push(r));
    assert(t.sent.drop_last() =~= s.sent);
}

proof fn lemma_repairer(room: Room, ssrc: u32, i: int, k: int, rtx_ssrc: u32)
    requires
        repaired_by(room, ssrc, i, k, rtx_ssrc),
    ensures
        crate::room::room::publisher_at(room.slots@, ssrc, 0) == Some(i),
        crate::room::participant::track_at(room.slots@[i]->0.tracks@, ssrc) == Some(k),
{
    law_publisher(room.slots@, ssrc);
    law_track_by_ssrc(room.slots@[i]->0.tracks@, ssrc);
    assert(publishes(room.slots@, ssrc, i));
    assert(with_ssrc(room.slots@[i]->0.tracks@, ssrc, k));
}

/// A subscriber who has used 200 of the budget gets nothing, and a packet that the
/// cache no longer holds is not sent and costs nothing. Both are counted.
pub proof fn law_what_is_not_sent_again(
    room: Room,
    sub: int,
    item: NackItem,
    s: NackRun,
    i: int,
    k: int,
    rtx_ssrc: u32,
    seq: u16,
)
    requires
        item.blp == 0,
        repaired_by(room, nack_ssrc(room, sub, item), i, k, rtx_ssrc),
        0 <= i < s.rtx_seqs.len(),
        nack_seqs(room, sub, item) == seq![seq],
        s.budget_used < u64::MAX,
    ensures
        ({
            let t = nack_step(room, sub, item, s);
            let c = room.slots@[i]->0.rtp_cache@[seq as int % 512];
            let held = c is Some && c->0.len() >= 12 && be16(c->0, 2) == seq;
            &&& !held ==> {
                &&& t.sent == s.sent
                &&& t.budget_used == s.budget_used
                &&& t.rtx_seqs == s.rtx_seqs
                &&& t.counts.cache_miss == s.counts.cache_miss.wrapping_add(1)
                &&& t.counts.rtx_sent == s.counts.rtx_sent
                &&& t.counts.budget_exceeded == s.counts.budget_exceeded
            }
            &&& held && s.budget_used >= 200 ==> {
                &&& t.sent == s.sent
                &&& t.budget_used == s.budget_used + 1
                &&& t.counts.cache_miss == s.counts.cache_miss
                &&& t.counts.rtx_sent == s.counts.rtx_sent
                &&& t.counts.budget_exceeded == s.counts.budget_exceeded.wrapping_add(1)
            }
        }),
{
    let ssrc = nack_ssrc(room, sub, item);
    lemma_repairer(room, ssrc, i, k, rtx_ssrc);
    let seqs = nack_seqs(room, sub, item);
    let c = room.slots@[i]->0.rtp_cache@;
    assert(rtx_packets(c, seqs, rtx_ssrc, s.rtx_seqs[i], 0).len() == 0);
    let found = rtx_packets(c, seqs, rtx_ssrc, s.rtx_seqs[i], 1);
    assert(within_budget(found, s.budget_used, 0).len() == 0);
    let t = nack_step(room, sub, item, s);
    if cached(c, seq) is None {
        assert(found.len() == 0);
        assert(t.sent =~= s.sent);
        assert(t.rtx_seqs =~= s.rtx_seqs);
    } else if s.budget_used >= 200 {
        assert(found.len() == 1);
        assert(within_budget(found, s.budget_used, 1).len() == 0);
        assert(t.sent =~= s.sent);
    }
}

/// A request for an SSRC that nobody publishes, and one for a track without
/// retransmission stream, are counted and answered with nothing; audio has none by
/// design, so that is not counted.
pub proof fn law_request_without_answer(room: Room, sub: int, item: NackItem, s: NackRun, i: int, k: int)
    ensures
        (forall|j: int| !#[trigger] publishes(room.slots@, nack_ssrc(room, sub, item), j)) ==> {
            let t = nack_step(room, sub, item, s);
            &&& t.sent == s.sent && t.budget_used == s.budget_used && t.rtx_seqs == s.rtx_seqs
            &&& t.counts.publisher_not_found == s.counts.publisher_not_found.wrapping_add(1)
            &&& t.counts.no_rtx_ssrc == s.counts.no_rtx_ssrc
        },
        ({
            let ssrc = nack_ssrc(room, sub, item);
            &&& publishes(room.slots@, ssrc, i)
            &&& forall|j: int| 0 <= j < i ==> !#[trigger] publishes(room.slots@, ssrc, j)
            &&& with_ssrc(room.slots@[i]->0.tracks@, ssrc, k)
            &&& forall|j: int|
                0 <= j < k ==> !#[trigger] with_ssrc(room.slots@[i]->0.tracks@, ssrc, j)
            &&& room.slots@[i]->0.tracks@[k].rtx_ssrc is None
        }) ==> {
            let t = nack_step(room, sub, item, s);
            let audio = room.slots@[i]->0.tracks@[k].kind == TrackKind::Audio;
            &&& t.sent == s.sent && t.budget_used == s.budget_used && t.rtx_seqs == s.rtx_seqs
            &&& t.counts.publisher_not_found == s.counts.publisher_not_found
            &&& audio ==> t.counts.no_rtx_ssrc == s.counts.no_rtx_ssrc
            &&& !audio ==> t.counts.no_rtx_ssrc == s.counts.no_rtx_ssrc.wrapping_add(1)
        },
{
    let ssrc = nack_ssrc(room, sub, item);
    law_publisher(room.slots@, ssrc);
    if publishes(room.slots@, ssrc, i) {
        law_track_by_ssrc(room.slots@[i]->0.tracks@, ssrc);
    }
}

/// The requests of a block are answered one after the other, in their order, from
/// where the room stands; of the participants only the numbers of the
/// retransmission streams and the subscriber's use of the budget change.
pub proof fn law_requests_in_order(a: Room, b: Room, sub: int, items: Seq<NackItem>, n: int, i: int)
    requires
        0 < n <= items.len(),
        taken(a.slots@, i),
        nack_applied(a, b, sub, nack_run(a, sub, items, n)),
    ensures
        nack_run(a, sub, items, 0) == nack_start(a, sub),
        nack_run(a, sub, items, 0).sent.len() == 0,
        nack_run(a, sub, items, 0).budget_used == a.slots@[sub]->0.rtx_budget_used,
        nack_run(a, sub, items, 0).rtx_seqs[i] == a.slots@[i]->0.rtx_seq,
        nack_run(a, sub, items, n) == nack_step(
            a,
            sub,
            items[n - 1],
            nack_run(a, sub, items, n - 1),
        ),
        taken(b.slots@, i),
        b.slots@[i]->0.rtx_seq == nack_run(a, sub, items, n).rtx_seqs[i],
        sub == i ==> b.slots@[i]->0.rtx_budget_used == nack_run(a, sub, items, n).budget_used,
        sub != i ==> b.slots@[i]->0.rtx_budget_used == a.slots@[i]->0.rtx_budget_used,
        b.slots@[i]->0.tracks == a.slots@[i]->0.tracks,
        b.slots@[i]->0.rtp_cache == a.slots@[i]->0.rtp_cache,
        b.slots@[i]->0.subscribe_layers == a.slots@[i]->0.subscribe_layers,
        b.video_rewriter == a.video_rewriter,
        b.floor == a.floor,
{
}

/// Requests are counted: how many packets they ask for, and whether they were on the
/// video stream of a push-to-talk room.
pub proof fn law_requests_are_counted(room: Room, sub: int, item: NackItem, s: NackRun)
    ensures
        ({
            let t = nack_step(room, sub, item, s);
            let ptt = !room.simulcast_enabled && room.mode == RoomMode::Ptt && item.media_ssrc
                == room.video_rewriter@.ssrc;
            &&& ptt ==> t.counts.ptt_remapped == s.counts.ptt_remapped.wrapping_add(1)
            &&& !ptt ==> t.counts.ptt_remapped == s.counts.ptt_remapped
            &&& t.counts.seqs_requested == s.counts.seqs_requested.wrapping_add(
                lost_seqs(item.pid, item.blp).len() as u64,
            )
        }),
        nack_start(room, sub).counts == (NackCounts {
            seqs_requested: 0,
            ptt_remapped: 0,
            publisher_not_found: 0,
            no_rtx_ssrc: 0,
            cache_miss: 0,
            budget_exceeded: 0,
            rtx_sent: 0,
        }),
{
}

/// Several packets that the cache holds are sent in the order of the request, with one
/// number after the other; those that it does not hold take no number.
pub proof fn law_answers_in_order(
    cache: Seq<Option<Seq<u8>>>,
    seqs: Seq<u16>,
    rtx_ssrc: u32,
    first: u16,
    n: int,
)
    requires
        0 < n <= seqs.len() <= 17,
    ensures
        ({
            let before = rtx_packets(cache, seqs, rtx_ssrc, first, n - 1);
            let all = rtx_packets(cache, seqs, rtx_ssrc, first, n);
            let held = cache[seqs[n - 1] as int % 512];
            &&& before.len() <= n - 1
            &&& held is Some && held->0.len() >= 12 && be16(held->0, 2) == seqs[n - 1] ==> {
                &&& all.len() == before.len() + 1
                &&& all.drop_last() == before
                &&& held->0.len() >= 12 + (held->0[0] % 16) * 4 ==> be16(all.last(), 2)
                    == first.wrapping_add(before.len() as u16) && be32(all.last(), 8) == rtx_ssrc
                &&& held->0.len() < 12 + (held->0[0] % 16) * 4 ==> all.last().len() == 0
            }
            &&& held is None || held->0.len() < 12 || be16(held->0, 2) != seqs[n - 1] ==> all
                == before
        }),
        rtx_packets(cache, seqs, rtx_ssrc, first, 0).len() == 0,
    decreases n,
{
    if n > 1 {
        law_answers_in_order(cache, seqs, rtx_ssrc, first, n - 1);
    }
    lemma_one_more_answer(cache, seqs, rtx_ssrc, first, n);
}

proof fn lemma_one_more_answer(
    cache: Seq<Option<Seq<u8>>>,
    seqs: Seq<u16>,
    rtx_ssrc: u32,
    first: u16,
    n: int,
)
    requires
        0 < n <= seqs.len() <= 17,
        rtx_packets(cache, seqs, rtx_ssrc, first, n - 1).len() <= n - 1,
    ensures
        ({
            let before = rtx_packets(cache, seqs, rtx_ssrc, first, n - 1);
            let all = rtx_packets(cache, seqs, rtx_ssrc, first, n);
            let held = cached(cache, seqs[n - 1]);
            &&& held matches Some(p) ==> {
                &&& all.len() == before.len() + 1
                &&& all.drop_last() == before
                &&& p.len() >= 12 + (p[0] % 16) * 4 ==> be16(all.last(), 2) == first.wrapping_add(
                    before.len() as u16,
                ) && be32(all.last(), 8) == rtx_ssrc
                &&& p.len() < 12 + (p[0] % 16) * 4 ==> all.last().len() == 0
            }
            &&& held is None ==> all == before
        }),
{
    let before = rtx_packets(cache, seqs, rtx_ssrc, first, n - 1);
    let all = rtx_packets(cache, seqs, rtx_ssrc, first, n);
    if let Some(p) = cached(cache, seqs[n - 1]) {
        let seq = first.wrapping_add((before.len() % 0x1_0000) as u16);
        let r = crate::transport::udp::nack::rtx_of(p, rtx_ssrc, seq);
        assert(all == before.push(r));
        assert(all.drop_last() =~= before);
        assert(all.last() == r);
        lemma_rtx_numbers(p, rtx_ssrc, seq);
    }
}

proof fn lemma_rtx_numbers(p: Seq<u8>, rtx_ssrc: u32, seq: u16)
    requires
        p.len() >= 12,
    ensures
        ({
            let r = crate::transport::udp::nack::rtx_of(p, rtx_ssrc, seq);
            &&& p.len() >= 12 + (p[0] % 16) * 4 ==> be16(r, 2) == seq && be32(r, 8) == rtx_ssrc
            &&& p.len() < 12 + (p[0] % 16) * 4 ==> r.len() == 0
        }),
{
    if p.len() >= 12 + (p[0] % 16) * 4 {
        law_rtx_restores(p, rtx_ssrc, seq);
    }
}

/// Of the packets of an answer those are sent that the budget of 200 still covers, each
/// packet taking one.
pub proof fn law_budget(packets: Seq<Seq<u8>>, used: u64, n: int)
    requires
        0 < n <= packets.len() <= 17,
        used <= 1_000_000,
    ensures
        used + n <= 200 ==> within_budget(packets, used, n) == within_budget(
            packets,
            used,
            n - 1,
        ).push(packets[n - 1]),
        used + n > 200 ==> within_budget(packets, used, n) == within_budget(packets, used, n - 1),
        within_budget(packets, used, 0).len() == 0,
{
}

} // verus!
