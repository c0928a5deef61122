//! Retransmission: negative acknowledgements of subscribers are answered from the
//! publishers' caches.

use vstd::prelude::*;

use crate::config::{self, RoomMode};
use crate::room::floor::Floor;
use crate::room::participant::{
    cached, find_layer, find_track, kind_ssrc, layer_of, layer_ssrc, ssrc_of_kind, ssrc_of_layer,
    track_at, Participant, TrackKind,
};
use crate::room::ptt_rewriter::original_seq;
use crate::room::index::names_of;
use crate::room::room::{
    lemma_publisher_kept, lemma_seats_kept, media_kept, publisher_at, taken, vssrc_at, Room,
};
use crate::transport::udp::rtcp::{
    build_rtx_packet, expand_nack, has_rtp_header, lost_seqs, nack_items, parse_rtcp_nack,
    rtx_packet, NackItem,
};
use crate::wire::runs;

verus! {

// ---------------------------------------------------------------------------
// Negative acknowledgements
// ---------------------------------------------------------------------------

/// What was counted while negative acknowledgements were answered.
#[derive(Debug, Clone, Copy, PartialEq, Eq, Structural)]
pub struct NackCounts {
    pub seqs_requested: u64,
    pub ptt_remapped: u64,
    pub publisher_not_found: u64,
    pub no_rtx_ssrc: u64,
    pub cache_miss: u64,
    pub budget_exceeded: u64,
    pub rtx_sent: u64,
}

pub open spec fn no_nack_counts() -> NackCounts {
    NackCounts {
        seqs_requested: 0,
        ptt_remapped: 0,
        publisher_not_found: 0,
        no_rtx_ssrc: 0,
        cache_miss: 0,
        budget_exceeded: 0,
        rtx_sent: 0,
    }
}

/// Who is heard: the speaker, or right after the end of a talk burst the one who
/// spoke last.
pub open spec fn heard(f: Floor) -> Option<Seq<char>> {
    match f.burst {
        Some(b) => Some(b.speaker),
        None => f.prev_speaker,
    }
}

/// The SSRC of the track of a kind that is heard in a push-to-talk room.
pub open spec fn heard_ssrc(room: Room, kind: TrackKind) -> Option<u32> {
    match heard(room.floor@) {
        Some(user) => match room.member(user) {
            Some(p) => kind_ssrc(p.tracks@, kind),
            None => None,
        },
        None => None,
    }
}

pub fn find_heard_ssrc(room: &Room, kind: TrackKind) -> (r: Option<u32>)
    requires
        room.wf(),
    ensures
        r == heard_ssrc(*room, kind),
{
    let user: String = match room.floor.current_speaker() {
        Some(s) => s,
        None => match room.floor.last_speaker() {
            Some(s) => s,
            None => {
                return None;
            },
        },
    };
    match room.get_participant(user.as_str()) {
        Some(p) => ssrc_of_kind(&p.tracks, kind),
        None => None,
    }
}

/// The publisher whose simulcast video a subscriber sees under an SSRC.
pub open spec fn simulcast_publisher(room: Room, ssrc: u32) -> Option<int> {
    if ssrc == 0 {
        None
    } else {
        vssrc_at(room.slots@, ssrc, 0)
    }
}

/// The layer in which a subscriber receives the video of the publisher at a
/// place.
pub open spec fn received_layer(room: Room, sub: int, publisher: int) -> Option<int> {
    layer_of(room.slots@[sub]->0.subscribe_layers@, room.slots@[publisher]->0.user_id@)
}

/// `o`, or `d` where there is none.
pub open spec fn ssrc_or(o: Option<u32>, d: u32) -> u32 {
    match o {
        Some(x) => x,
        None => d,
    }
}

/// The SSRC that the server itself received the requested packets under.
pub open spec fn nack_ssrc(room: Room, sub: int, item: NackItem) -> u32 {
    if room.simulcast_enabled {
        match simulcast_publisher(room, item.media_ssrc) {
            Some(i) => match received_layer(room, sub, i) {
                Some(k) => ssrc_or(
                    layer_ssrc(
                        room.slots@[i]->0.tracks@,
                        room.slots@[sub]->0.subscribe_layers@[k].rid@,
                    ),
                    item.media_ssrc,
                ),
                None => item.media_ssrc,
            },
            None => item.media_ssrc,
        }
    } else if room.mode == RoomMode::Ptt && item.media_ssrc == room.video_rewriter@.ssrc {
        ssrc_or(heard_ssrc(room, TrackKind::Video), item.media_ssrc)
    } else {
        item.media_ssrc
    }
}

/// The sequence number that a requested packet had when the server received it.
pub open spec fn nack_seq(room: Room, sub: int, item: NackItem, seq: u16) -> u16 {
    if room.simulcast_enabled {
        match simulcast_publisher(room, item.media_ssrc) {
            Some(i) => match received_layer(room, sub, i) {
                Some(k) => seq.wrapping_sub(
                    room.slots@[sub]->0.subscribe_layers@[k].rewriter.seq_offset,
                ),
                None => seq,
            },
            None => seq,
        }
    } else if room.mode == RoomMode::Ptt && item.media_ssrc == room.video_rewriter@.ssrc {
        original_seq(room.video_rewriter@, seq)
    } else {
        seq
    }
}

/// The sequence numbers of all requested packets, as the server received them.
pub open spec fn nack_seqs(room: Room, sub: int, item: NackItem) -> Seq<u16> {
    Seq::new(
        lost_seqs(item.pid, item.blp).len(),
        |i: int| nack_seq(room, sub, item, lost_seqs(item.pid, item.blp)[i]),
    )
}

/// The retransmission of a cached packet.
pub open spec fn rtx_of(p: Seq<u8>, rtx_ssrc: u32, rtx_seq: u16) -> Seq<u8> {
    if has_rtp_header(p) {
        rtx_packet(p, rtx_ssrc, rtx_seq)
    } else {
        Seq::empty()
    }
}

/// The retransmissions of those of the first `n` packets that the cache holds,
/// numbered from `first` on.
pub open spec fn rtx_packets(
    cache: Seq<Option<Seq<u8>>>,
    seqs: Seq<u16>,
    rtx_ssrc: u32,
    first: u16,
    n: int,
) -> Seq<Seq<u8>>
    decreases n,
{
    if n <= 0 {
        Seq::empty()
    } else {
        let before = rtx_packets(cache, seqs, rtx_ssrc, first, n - 1);
        match cached(cache, seqs[n - 1]) {
            Some(p) => before.push(
                rtx_of(p, rtx_ssrc, first.wrapping_add((before.len() % 0x1_0000) as u16)),
            ),
            None => before,
        }
    }
}

/// Those of the first `n` packets that a subscriber who has used `used` of the
/// budget still gets.
pub open spec fn within_budget(packets: Seq<Seq<u8>>, used: u64, n: int) -> Seq<Seq<u8>>
    decreases n,
{
    if n <= 0 {
        Seq::empty()
    } else {
        let before = within_budget(packets, used, n - 1);
        if used.wrapping_add((n - 1) as u64) < config::RTX_BUDGET_PER_3S {
            before.push(packets[n - 1])
        } else {
            before
        }
    }
}

/// What changes while negative acknowledgements are answered: the numbers of the
/// publishers' retransmissions, the subscriber's budget, what is sent, and the
/// counts.
pub struct NackRun {
    pub rtx_seqs: Seq<u16>,
    pub budget_used: u64,
    pub sent: Seq<Seq<u8>>,
    pub counts: NackCounts,
}

/// Before the first request.
pub open spec fn nack_start(room: Room, sub: int) -> NackRun {
    NackRun {
        rtx_seqs: Seq::new(
            room.slots@.len(),
            |i: int| if taken(room.slots@, i) { room.slots@[i]->0.rtx_seq } else { 0 },
        ),
        budget_used: room.slots@[sub]->0.rtx_budget_used,
        sent: Seq::empty(),
        counts: no_nack_counts(),
    }
}

/// The counts when a request comes in.
pub open spec fn nack_noted(room: Room, item: NackItem, c: NackCounts) -> NackCounts {
    NackCounts {
        seqs_requested: c.seqs_requested.wrapping_add(lost_seqs(item.pid, item.blp).len() as u64),
        ptt_remapped: if !room.simulcast_enabled && room.mode == RoomMode::Ptt && item.media_ssrc
            == room.video_rewriter@.ssrc {
            c.ptt_remapped.wrapping_add(1)
        } else {
            c.ptt_remapped
        },
        ..c
    }
}

/// What one request does.
pub open spec fn nack_step(room: Room, sub: int, item: NackItem, s: NackRun) -> NackRun {
    let c = nack_noted(room, item, s.counts);
    let ssrc = nack_ssrc(room, sub, item);
    match publisher_at(room.slots@, ssrc, 0) {
        None => NackRun {
            counts: NackCounts { publisher_not_found: c.publisher_not_found.wrapping_add(1), ..c },
            ..s
        },
        Some(i) => {
            let p = room.slots@[i]->0;
            let t = p.tracks@[track_at(p.tracks@, ssrc)->0];
            match t.rtx_ssrc {
                None => NackRun {
                    counts: if t.kind == TrackKind::Audio {
                        c
                    } else {
                        NackCounts { no_rtx_ssrc: c.no_rtx_ssrc.wrapping_add(1), ..c }
                    },
                    ..s
                },
                Some(rtx_ssrc) => {
                    let seqs = nack_seqs(room, sub, item);
                    let found = rtx_packets(
                        p.rtp_cache@,
                        seqs,
                        rtx_ssrc,
                        s.rtx_seqs[i],
                        seqs.len() as int,
                    );
                    let got = within_budget(found, s.budget_used, found.len() as int);
                    NackRun {
                        rtx_seqs: s.rtx_seqs.update(
                            i,
                            s.rtx_seqs[i].wrapping_add(found.len() as u16),
                        ),
                        budget_used: s.budget_used.wrapping_add(found.len() as u64),
                        sent: s.sent + got,
                        counts: NackCounts {
                            cache_miss: c.cache_miss.wrapping_add(
                                (seqs.len() - found.len()) as u64,
                            ),
                            budget_exceeded: c.budget_exceeded.wrapping_add(
                                (found.len() - got.len()) as u64,
                            ),
                            rtx_sent: c.rtx_sent.wrapping_add(got.len() as u64),
                            ..c
                        },
                    }
                },
            }
        },
    }
}

/// What the first `n` requests do.
pub open spec fn nack_run(room: Room, sub: int, items: Seq<NackItem>, n: int) -> NackRun
    decreases n,
{
    if n <= 0 {
        nack_start(room, sub)
    } else {
        nack_step(room, sub, items[n - 1], nack_run(room, sub, items, n - 1))
    }
}

/// A participant as a run leaves them.
pub open spec fn nack_participant(p: Option<Participant>, i: int, sub: int, s: NackRun) -> Option<
    Participant,
> {
    match p {
        Some(x) => Some(
            Participant {
                rtx_seq: s.rtx_seqs[i],
                rtx_budget_used: if i == sub { s.budget_used } else { x.rtx_budget_used },
                ..x
            },
        ),
        None => None,
    }
}

/// The room as a run leaves it.
pub open spec fn nack_applied(a: Room, b: Room, sub: int, s: NackRun) -> bool {
    &&& b == (Room { slots: b.slots, ..a })
    &&& b.slots@ == Seq::new(
        a.slots@.len(),
        |i: int| nack_participant(a.slots@[i], i, sub, s),
    )
}

/// What to send to the subscriber, and what to count.
pub struct NackAnswer {
    pub packets: Vec<Vec<u8>>,
    pub counts: NackCounts,
}

proof fn lemma_lost_len(pid: u16, blp: u16, n: int)
    requires
        0 <= n <= 16,
    ensures
        crate::transport::udp::rtcp::blp_seqs(pid, blp, n).len() <= n,
    decreases n,
{
    if n > 0 {
        lemma_lost_len(pid, blp, n - 1);
    }
}

proof fn lemma_rtx_len(cache: Seq<Option<Seq<u8>>>, seqs: Seq<u16>, rtx_ssrc: u32, first: u16, n: int)
    requires
        0 <= n,
    ensures
        rtx_packets(cache, seqs, rtx_ssrc, first, n).len() <= n,
    decreases n,
{
    if n > 0 {
        lemma_rtx_len(cache, seqs, rtx_ssrc, first, n - 1);
    }
}

proof fn lemma_budget_len(packets: Seq<Seq<u8>>, used: u64, n: int)
    requires
        0 <= n,
    ensures
        within_budget(packets, used, n).len() <= n,
    decreases n,
{
    if n > 0 {
        lemma_budget_len(packets, used, n - 1);
    }
}

proof fn lemma_nack_media(a: Room, b: Room, sub: int, s: NackRun)
    requires
        nack_applied(a, b, sub, s),
    ensures
        media_kept(a.slots@, b.slots@),
{
    assert forall|i: int| #[trigger] taken(b.slots@, i) == taken(a.slots@, i) by {}
}

/// A run in progress does not change what requests refer to.
proof fn lemma_nack_view(a: Room, b: Room, sub: int, s: NackRun, item: NackItem)
    requires
        a.wf(),
        b.wf(),
        taken(a.slots@, sub),
        nack_applied(a, b, sub, s),
    ensures
        taken(b.slots@, sub),
        nack_ssrc(b, sub, item) == nack_ssrc(a, sub, item),
        nack_seqs(b, sub, item) == nack_seqs(a, sub, item),
        forall|ssrc: u32| #[trigger]
            publisher_at(b.slots@, ssrc, 0) == publisher_at(a.slots@, ssrc, 0),
        media_kept(a.slots@, b.slots@),
{
    lemma_nack_media(a, b, sub, s);
    assert forall|ssrc: u32| #[trigger]
        publisher_at(b.slots@, ssrc, 0) == publisher_at(a.slots@, ssrc, 0) by {
        lemma_publisher_kept(a.slots@, b.slots@, ssrc, 0);
    }
    lemma_publisher_kept(a.slots@, b.slots@, item.media_ssrc, 0);
    assert(taken(b.slots@, sub));
    if let Some(i) = simulcast_publisher(a, item.media_ssrc) {
        lemma_vssrc_taken(a.slots@, item.media_ssrc, 0);
        assert(taken(b.slots@, i));
    }
    if let Some(user) = heard(a.floor@) {
        if a.member(user) is Some {
            let i = a.place_of_user(user)->0;
            assert(names_of(a.participants).dom().contains(user));
            assert(taken(b.slots@, i));
        }
    }
    assert(nack_seqs(b, sub, item) =~= nack_seqs(a, sub, item));
}

proof fn lemma_vssrc_taken(slots: Seq<Option<Participant>>, vssrc: u32, i: int)
    ensures
        vssrc_at(slots, vssrc, i) matches Some(k) ==> taken(slots, k),
    decreases slots.len() - i,
{
    if 0 <= i < slots.len() {
        lemma_vssrc_taken(slots, vssrc, i + 1);
    }
}

proof fn lemma_nack_same(a: Room, b: Room, sub: int, s: NackRun, t: NackRun)
    requires
        nack_applied(a, b, sub, s),
        t.rtx_seqs == s.rtx_seqs,
        t.budget_used == s.budget_used,
    ensures
        nack_applied(a, b, sub, t),
{
    assert(b.slots@ =~= Seq::new(a.slots@.len(), |i: int| nack_participant(a.slots@[i], i, sub, t)));
}

proof fn lemma_nack_seats(a: Room, b: Room, sub: int, s: NackRun)
    requires
        a.wf(),
        nack_applied(a, b, sub, s),
    ensures
        b.wf(),
{
    assert forall|i: int| #[trigger] taken(b.slots@, i) == taken(a.slots@, i) by {}
    assert forall|i: int| #[trigger] taken(b.slots@, i) implies b.slots@[i]->0.wf() by {
        assert(taken(a.slots@, i));
    }
    lemma_seats_kept(a, b);
}

/// Translates a request into what the server received: the SSRC and the sequence
/// numbers of the lost packets.
pub fn resolve_nack(room: &Room, subscriber: usize, nack: NackItem) -> (r: (u32, Vec<u16>))
    requires
        room.wf(),
        taken(room.slots@, subscriber as int),
    ensures
        r.0 == nack_ssrc(*room, subscriber as int, nack),
        r.1@ == nack_seqs(*room, subscriber as int, nack),
{
    let lost = expand_nack(nack.pid, nack.blp);
    let mut ssrc: u32 = nack.media_ssrc;
    let mut simulcast_offset: Option<u16> = None;
    let ptt: bool = !room.simulcast_enabled && room.mode == RoomMode::Ptt && nack.media_ssrc
        == room.video_rewriter.virtual_ssrc();
    if room.simulcast_enabled {
        if let Some(i) = room.find_publisher_by_vssrc(nack.media_ssrc) {
            if let (Some(p), Some(sub)) = (&room.slots[i], &room.slots[subscriber]) {
                if let Some(k) = find_layer(&sub.subscribe_layers, p.user_id.as_str()) {
                    let entry = &sub.subscribe_layers[k];
                    simulcast_offset = Some(entry.rewriter.seq_offset);
                    if let Some(s) = ssrc_of_layer(&p.tracks, entry.rid.as_str()) {
                        ssrc = s;
                    }
                }
            }
        }
    } else if ptt {
        if let Some(s) = find_heard_ssrc(room, TrackKind::Video) {
            ssrc = s;
        }
    }
    let mut seqs: Vec<u16> = Vec::new();
    let mut k: usize = 0;
    while k < lost.len()
        invariant
            lost@ == lost_seqs(nack.pid, nack.blp),
            k <= lost@.len(),
            seqs@.len() == k,
            ptt == (!room.simulcast_enabled && room.mode == RoomMode::Ptt && nack.media_ssrc
                == room.video_rewriter@.ssrc),
            forall|v: u16|
                nack_seq(*room, subscriber as int, nack, v) == (match simulcast_offset {
                    Some(off) => v.wrapping_sub(off),
                    None => if ptt {
                        original_seq(room.video_rewriter@, v)
                    } else {
                        v
                    },
                }),
            forall|j: int|
                0 <= j < k ==> seqs@[j] == nack_seq(*room, subscriber as int, nack, lost@[j]),
        decreases lost@.len() - k,
    {
        let v: u16 = lost[k];
        let plain: u16 = match simulcast_offset {
            Some(off) => v.wrapping_sub(off),
            None => if ptt {
                room.video_rewriter.reverse_seq(v)
            } else {
                v
            },
        };
        seqs.push(plain);
        k += 1;
    }
    assert(seqs@ =~= nack_seqs(*room, subscriber as int, nack));
    (ssrc, seqs)
}

/// The retransmissions of those of `seqs` that a publisher's cache holds.
fn rtx_answers(p: &Participant, seqs: &Vec<u16>, rtx_ssrc: u32) -> (r: Vec<Vec<u8>>)
    requires
        p.wf(),
        seqs@.len() <= 17,
    ensures
        runs(r@) == rtx_packets(p.rtp_cache@, seqs@, rtx_ssrc, p.rtx_seq, seqs@.len() as int),
{
    let mut out: Vec<Vec<u8>> = Vec::new();
    let mut k: usize = 0;
    assert(runs(out@) =~= Seq::empty());
    while k < seqs.len()
        invariant
            p.wf(),
            seqs@.len() <= 17,
            k <= seqs@.len(),
            out@.len() <= k,
            runs(out@) == rtx_packets(p.rtp_cache@, seqs@, rtx_ssrc, p.rtx_seq, k as int),
        decreases seqs@.len() - k,
    {
        if let Some(original) = p.rtp_cache.get(seqs[k]) {
            let seq: u16 = p.rtx_seq.wrapping_add(out.len() as u16);
            let ghost before = out@;
            out.push(build_rtx_packet(original, rtx_ssrc, seq));
            assert(runs(out@) =~= runs(before).push(rtx_of(original@, rtx_ssrc, seq)));
        }
        k += 1;
    }
    out
}

/// Answers a block of negative acknowledgements from the publishers' caches.
pub fn handle_nack_block(room: &mut Room, subscriber: usize, nack_data: &[u8]) -> (r: NackAnswer)
    requires
        old(room).wf(),
        taken(old(room).slots@, subscriber as int),
    ensures
        final(room).wf(),
        ({
            let items = nack_items(nack_data@, 0);
            let s = nack_run(*old(room), subscriber as int, items, items.len() as int);
            &&& nack_applied(*old(room), *final(room), subscriber as int, s)
            &&& runs(r.packets@) == s.sent
            &&& r.counts == s.counts
        }),
{
    let items = parse_rtcp_nack(nack_data);
    let mut packets: Vec<Vec<u8>> = Vec::new();
    let mut counts = NackCounts {
        seqs_requested: 0,
        ptt_remapped: 0,
        publisher_not_found: 0,
        no_rtx_ssrc: 0,
        cache_miss: 0,
        budget_exceeded: 0,
        rtx_sent: 0,
    };
    let ghost start = *room;
    let ghost sub = subscriber as int;
    let mut n: usize = 0;
    proof {
        assert(runs(packets@) =~= Seq::empty());
        assert(room.slots@ =~= Seq::new(
            start.slots@.len(),
            |i: int| nack_participant(start.slots@[i], i, sub, nack_start(start, sub)),
        ));
    }
    while n < items.len()
        invariant
            start.wf(),
            taken(start.slots@, sub),
            sub == subscriber,
            room.wf(),
            n <= items@.len(),
            nack_applied(start, *room, sub, nack_run(start, sub, items@, n as int)),
            nack_run(start, sub, items@, n as int).rtx_seqs.len() == start.slots@.len(),
            runs(packets@) == nack_run(start, sub, items@, n as int).sent,
            counts == nack_run(start, sub, items@, n as int).counts,
        decreases items@.len() - n,
    {
        let nack = items[n];
        let ghost s = nack_run(start, sub, items@, n as int);
        proof {
            lemma_nack_view(start, *room, sub, s, nack);
            lemma_lost_len(nack.pid, nack.blp, 16);
        }
        let (ssrc, seqs) = resolve_nack(room, subscriber, nack);
        counts.seqs_requested = counts.seqs_requested.wrapping_add(seqs.len() as u64);
        if !room.simulcast_enabled && room.mode == RoomMode::Ptt && nack.media_ssrc
            == room.video_rewriter.virtual_ssrc() {
            counts.ptt_remapped = counts.ptt_remapped.wrapping_add(1);
        }
        n += 1;
        let slot: usize = match room.find_by_track_ssrc(ssrc) {
            Some(i) => i,
            None => {
                counts.publisher_not_found = counts.publisher_not_found.wrapping_add(1);
                proof {
                    lemma_nack_same(start, *room, sub, s, nack_run(start, sub, items@, n as int));
                }
                continue;
            },
        };
        proof {
            assert(taken(room.slots@, slot as int));
            assert(room.slots@[slot as int] == nack_participant(
                start.slots@[slot as int],
                slot as int,
                sub,
                s,
            ));
        }
        let mut found: Option<Vec<Vec<u8>>> = None;
        let mut is_audio: bool = false;
        if let Some(p) = &room.slots[slot] {
            assert(p.wf()) by {
                assert(taken(room.slots@, slot as int));
            }
            if let Some(t) = find_track(&p.tracks, ssrc) {
                is_audio = p.tracks[t].kind == TrackKind::Audio;
                if let Some(rtx_ssrc) = p.tracks[t].rtx_ssrc {
                    found = Some(rtx_answers(p, &seqs, rtx_ssrc));
                }
            }
        }
        match found {
            None => {
                if !is_audio {
                    counts.no_rtx_ssrc = counts.no_rtx_ssrc.wrapping_add(1);
                }
                proof {
                    lemma_nack_same(start, *room, sub, s, nack_run(start, sub, items@, n as int));
                }
            },
            Some(rtx) => {
                let ghost all = runs(rtx@);
                proof {
                    lemma_rtx_len(
                        start.slots@[slot as int]->0.rtp_cache@,
                        seqs@,
                        start.slots@[slot as int]->0.tracks@[track_at(
                            start.slots@[slot as int]->0.tracks@,
                            ssrc,
                        )->0].rtx_ssrc->0,
                        s.rtx_seqs[slot as int],
                        seqs@.len() as int,
                    );
                }
                let total: usize = rtx.len();
                let used: u64 = match &room.slots[subscriber] {
                    Some(p) => p.rtx_budget_used,
                    None => 0,
                };
                if let Some(p) = &mut room.slots[slot] {
                    p.rtx_seq = p.rtx_seq.wrapping_add(total as u16);
                }
                if let Some(p) = &mut room.slots[subscriber] {
                    p.rtx_budget_used = used.wrapping_add(total as u64);
                }
                counts.cache_miss = counts.cache_miss.wrapping_add((seqs.len() - total) as u64);
                let ghost sent = packets@;
                assert(runs(packets@) =~= s.sent + within_budget(all, used, 0));
                let mut dropped: u64 = 0;
                let mut k: u64 = 0;
                for pkt in it: rtx
                    invariant
                        it.seq() == rtx@,
                        rtx@.len() == total <= 17,
                        all == runs(rtx@),
                        k == it.index(),
                        k <= total,
                        dropped <= k,
                        dropped + within_budget(all, used, k as int).len() == k,
                        packets@.len() == sent.len() + within_budget(all, used, k as int).len(),
                        runs(packets@) == s.sent + within_budget(all, used, k as int),
                {
                    assert(all[k as int] == pkt@);
                    let ghost now = packets@;
                    if used.wrapping_add(k) >= config::RTX_BUDGET_PER_3S {
                        dropped += 1;
                    } else {
                        packets.push(pkt);
                        assert(runs(packets@) =~= runs(now).push(pkt@));
                        assert(runs(packets@) =~= s.sent + within_budget(all, used, k + 1));
                    }
                    k += 1;
                }
                counts.budget_exceeded = counts.budget_exceeded.wrapping_add(dropped);
                counts.rtx_sent = counts.rtx_sent.wrapping_add(total as u64 - dropped);
                proof {
                    let t = nack_run(start, sub, items@, n as int);
                    assert(room.slots@ =~= Seq::new(
                        start.slots@.len(),
                        |i: int| nack_participant(start.slots@[i], i, sub, t),
                    ));
                    lemma_nack_seats(start, *room, sub, t);
                }
            },
        }
    }
    NackAnswer { packets, counts }
}

} // verus!
