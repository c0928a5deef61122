//! What goes out on the media connections: packets for subscribers, and reports,
//! bandwidth hints and key frame requests for publishers.

use vstd::prelude::*;

use crate::config;
use crate::room::participant::{
    find_send, receptions, send_at, stats_valid, EgressPacket, MediaSession, Participant,
};
use crate::room::room::{lemma_seats_kept, taken, Room};
use crate::signaling::effect::{find_pli_target, pli_target};
use crate::text::text_eq;
use crate::transport::addr::SocketAddress;
use crate::transport::srtp::{after_rtp, can_encrypt_rtp, rtp_parts_fit, rtp_prior, srtp_sealed, SrtpState};
use crate::transport::udp::feedback::{seal_for_publisher, sealed_for, sealed_rtcp};
use crate::transport::udp::rtcp::{build_pli, build_remb, pli_packet, remb_form, remb_packet};
use crate::transport::udp::rtcp_terminator::{
    after_report, build_receiver_report, receiver_report, report_block, Reception, RrReportBlock,
    SendStats,
};
use crate::wire::{be16, be32, read_u16, read_u32};

verus! {

/// The SSRC under which the server reports.
pub const SERVER_SSRC: u32 = 1;

// ---------------------------------------------------------------------------
// Packets for a subscriber
// ---------------------------------------------------------------------------

/// How long the header of a packet is, with its contributing sources and its
/// extension.
pub open spec fn full_header_len(p: Seq<u8>) -> int {
    let fixed = 12 + (p[0] % 16) * 4;
    if p[0] / 16 % 2 == 1 && p.len() >= fixed + 4 {
        fixed + 4 + be16(p, fixed + 2) * 4
    } else {
        fixed
    }
}

/// How many bytes of media a packet carries.
pub open spec fn payload_len(p: Seq<u8>) -> int {
    if p.len() > full_header_len(p) {
        p.len() - full_header_len(p)
    } else {
        0
    }
}

fn measure_payload(p: &[u8]) -> (r: usize)
    requires
        p@.len() >= 12,
    ensures
        r == payload_len(p@),
{
    let n: usize = p.len();
    let mut header: usize = 12 + (p[0] % 16) as usize * 4;
    if p[0] / 16 % 2 == 1 && n >= header + 4 {
        let words: usize = read_u16(p, header + 2) as usize;
        header = header + 4 + words * 4;
    }
    if n > header {
        n - header
    } else {
        0
    }
}

/// Whether a packet counts as media sent: retransmissions do not.
pub open spec fn is_counted(p: Seq<u8>) -> bool {
    p.len() >= 12 && p[1] % 128 != config::VP8_RTX_PAYLOAD_TYPE && p[1] % 128
        != config::H264_RTX_PAYLOAD_TYPE
}

/// The counts of a stream with one packet more.
pub open spec fn counted_in(s: SendStats, t: SendStats, p: Seq<u8>) -> bool {
    &&& t.ssrc == s.ssrc
    &&& t.clock_rate == s.clock_rate
    &&& t.packets_sent == s.packets_sent.wrapping_add(1)
    &&& t.bytes_sent == s.bytes_sent.wrapping_add((payload_len(p) % 0x1_0000_0000) as u32)
    &&& t.last_rtp_ts == be32(p, 4)
    &&& t.last_send_time is Some
}

/// A stream of which nothing was sent.
pub open spec fn nothing_sent(s: SendStats, p: Seq<u8>) -> bool {
    &&& s.ssrc == be32(p, 8)
    &&& s.clock_rate == (if p[1] % 128 == config::OPUS_PAYLOAD_TYPE {
        config::CLOCK_RATE_AUDIO
    } else {
        config::CLOCK_RATE_VIDEO
    })
    &&& s.packets_sent == 0 && s.bytes_sent == 0 && s.last_rtp_ts == 0
    &&& s.last_send_time is None
}

/// What was sent, with one packet more.
pub open spec fn sent_noted(a: Seq<SendStats>, b: Seq<SendStats>, p: Seq<u8>) -> bool {
    if !is_counted(p) {
        b == a
    } else {
        match send_at(a, be32(p, 8)) {
            Some(i) => b == a.update(i, b[i]) && counted_in(a[i], b[i], p),
            None => {
                &&& b.len() == a.len() + 1
                &&& b.take(a.len() as int) == a
                &&& exists|s: SendStats| #[trigger] nothing_sent(s, p) && counted_in(s, b.last(), p)
            },
        }
    }
}

/// Counts a packet that is sent to a subscriber.
pub fn note_sent(p: &mut Participant, plaintext: &[u8])
    requires
        old(p).wf(),
    ensures
        final(p).wf(),
        *final(p) == (Participant { send_stats: final(p).send_stats, ..*old(p) }),
        sent_noted(old(p).send_stats@, final(p).send_stats@, plaintext@),
{
    if plaintext.len() < 12 {
        return;
    }
    let pt: u8 = plaintext[1] % 128;
    if config::is_rtx_pt(pt) {
        return;
    }
    let ssrc: u32 = read_u32(plaintext, 8);
    let rtp_ts: u32 = read_u32(plaintext, 4);
    let len: usize = measure_payload(plaintext);
    let clock: u32 = if config::is_audio_pt(pt) {
        config::CLOCK_RATE_AUDIO
    } else {
        config::CLOCK_RATE_VIDEO
    };
    let ghost before = p.send_stats@;
    match find_send(&p.send_stats, ssrc) {
        Some(i) => {
            p.send_stats[i].on_rtp_sent(rtp_ts, len);
            assert(p.send_stats@ =~= before.update(i as int, p.send_stats@[i as int]));
        },
        None => {
            let mut s = SendStats::new(ssrc, clock);
            let ghost fresh = s;
            s.on_rtp_sent(rtp_ts, len);
            p.send_stats.push(s);
            proof {
                assert(nothing_sent(fresh, plaintext@) && counted_in(fresh, s, plaintext@));
                assert(p.send_stats@.take(before.len() as int) =~= before);
            }
        },
    }
}

/// What becomes of a media packet that is to be encrypted: nothing without keys,
/// nor where the cipher fails, nor where the elements of the header extension do
/// not fit.
pub open spec fn sealed_rtp(
    a: Option<SrtpState>,
    b: Option<SrtpState>,
    plain: Seq<u8>,
    r: Option<Seq<u8>>,
) -> bool {
    if !rtp_parts_fit(plain) {
        r is None && b == a
    } else {
        match a {
            None => r is None && b == a,
            Some(s) => match srtp_sealed(s.secret, rtp_prior(s, plain), plain) {
                Ok(v) => r == Some(v) && b == Some(after_rtp(s, plain)),
                Err(_) => r is None && b == a,
            },
        }
    }
}

/// A subscriber for whom something was encrypted.
pub open spec fn sealed_to(a: Participant, b: Participant) -> bool {
    &&& b.subscribe == (MediaSession { outbound_srtp: b.subscribe.outbound_srtp, ..a.subscribe })
    &&& b == (Participant { subscribe: b.subscribe, send_stats: b.send_stats, ..a })
}

/// A packet for a subscriber: it is counted, if it is media, and encrypted.
/// Nothing happens as long as nobody knows where the subscriber is.
pub fn seal_egress(p: &mut Participant, packet: &EgressPacket) -> (r: Option<(SocketAddress, Vec<u8>)>)
    requires
        old(p).wf(),
    ensures
        final(p).wf(),
        sealed_to(*old(p), *final(p)),
        ({
            let bytes = match r {
                Some((_, v)) => Some(v@),
                None => None,
            };
            let a = old(p).subscribe.outbound_srtp@;
            let b = final(p).subscribe.outbound_srtp@;
            match old(p).subscribe.address {
                None => r is None && *final(p) == *old(p),
                Some(addr) => {
                    &&& r matches Some((to, _)) ==> to == addr
                    &&& match packet {
                        EgressPacket::Rtp(plain) => sent_noted(
                            old(p).send_stats@,
                            final(p).send_stats@,
                            plain@,
                        ) && sealed_rtp(a, b, plain@, bytes),
                        EgressPacket::Rtcp(plain) => final(p).send_stats == old(p).send_stats
                            && sealed_rtcp(a, b, plain@, bytes),
                    }
                },
            }
        }),
{
    let addr: SocketAddress = match p.subscribe.get_address() {
        Some(a) => a,
        None => {
            return None;
        },
    };
    match packet {
        EgressPacket::Rtp(plain) => {
            note_sent(p, plain);
            if !can_encrypt_rtp(plain) {
                return None;
            }
            match p.subscribe.outbound_srtp.encrypt_rtp(plain) {
                Ok(v) => Some((addr, v)),
                Err(_) => None,
            }
        },
        EgressPacket::Rtcp(plain) => match p.subscribe.outbound_srtp.encrypt_rtcp(plain) {
            Ok(v) => Some((addr, v)),
            Err(_) => None,
        },
    }
}

// ---------------------------------------------------------------------------
// Notes to publishers
// ---------------------------------------------------------------------------

/// What publishers are told about their video.
#[derive(Debug, Clone, Copy, PartialEq, Eq, Structural)]
pub enum PublisherNote {
    /// A key frame is wanted.
    KeyFrame,
    /// How many bits a second they may send.
    Bitrate(u64),
}

/// Whether a packet is the note about an SSRC.
pub open spec fn is_note(note: PublisherNote, ssrc: u32, plain: Seq<u8>) -> bool {
    match note {
        PublisherNote::KeyFrame => plain == pli_packet(ssrc),
        PublisherNote::Bitrate(bps) => exists|exp: u8, mantissa: u32|
            #![trigger remb_packet(exp, mantissa, ssrc)]
            remb_form(bps, exp as nat, mantissa as nat) && plain == remb_packet(exp, mantissa, ssrc),
    }
}

/// What a note to a publisher comes to: it goes out, encrypted, if they publish
/// video, are ready and are known to be somewhere.
pub open spec fn notified(
    a: Participant,
    b: Participant,
    note: PublisherNote,
    r: Option<(SocketAddress, Vec<u8>)>,
) -> bool {
    match pli_target(a) {
        None => r is None && b == a,
        Some((ssrc, addr)) => {
            &&& sealed_for(a, b)
            &&& r matches Some((to, _)) ==> to == addr
            &&& exists|plain: Seq<u8>| #[trigger]
                is_note(note, ssrc, plain) && sealed_rtcp(
                    a.publish.outbound_srtp@,
                    b.publish.outbound_srtp@,
                    plain,
                    match r {
                        Some((_, v)) => Some(v@),
                        None => None,
                    },
                )
        },
    }
}

/// A note to one publisher.
pub fn notify_publisher(p: &mut Participant, note: PublisherNote) -> (r: Option<(SocketAddress, Vec<u8>)>)
    requires
        old(p).wf(),
    ensures
        final(p).wf(),
        notified(*old(p), *final(p), note, r),
{
    let (ssrc, addr): (u32, SocketAddress) = match find_pli_target(p) {
        Some(x) => x,
        None => {
            return None;
        },
    };
    let sealed: Option<Vec<u8>> = match note {
        PublisherNote::KeyFrame => {
            let plain = build_pli(ssrc);
            assert(is_note(note, ssrc, plain@));
            seal_for_publisher(p, &plain)
        },
        PublisherNote::Bitrate(bps) => {
            let plain = build_remb(bps, ssrc);
            assert(is_note(note, ssrc, plain@));
            seal_for_publisher(p, &plain)
        },
    };
    match sealed {
        Some(v) => Some((addr, v)),
        None => None,
    }
}

/// Whether the participant at a place gets a note.
pub open spec fn gets_note(slots: Seq<Option<Participant>>, exclude: Option<Seq<char>>, i: int) -> bool {
    taken(slots, i) && exclude != Some(slots[i]->0.user_id@)
}

/// What notes to the first `n` places come to, place by place.
pub open spec fn all_notified(
    a: Seq<Option<Participant>>,
    b: Seq<Option<Participant>>,
    exclude: Option<Seq<char>>,
    note: PublisherNote,
    r: Seq<Option<(SocketAddress, Vec<u8>)>>,
    n: int,
) -> bool {
    &&& forall|i: int|
        0 <= i < n && gets_note(a, exclude, i) ==> b[i] is Some && notified(
            a[i]->0,
            b[i]->0,
            note,
            #[trigger] r[i],
        )
    &&& forall|i: int|
        0 <= i < n && !gets_note(a, exclude, i) ==> b[i] == a[i] && (#[trigger] r[i]) is None
}

/// A note to all publishers of a room, but for one where `exclude` names them.
/// What is to be sent is returned place by place.
pub fn notify_publishers(room: &mut Room, exclude: Option<&str>, note: PublisherNote) -> (r: Vec<
    Option<(SocketAddress, Vec<u8>)>,
>)
    requires
        old(room).wf(),
    ensures
        final(room).wf(),
        *final(room) == (Room { slots: final(room).slots, ..*old(room) }),
        final(room).slots@.len() == old(room).slots@.len() == r@.len(),
        all_notified(
            old(room).slots@,
            final(room).slots@,
            match exclude {
                Some(s) => Some(s@),
                None => None,
            },
            note,
            r@,
            r@.len() as int,
        ),
{
    let ghost start = *room;
    let ghost ex = match exclude {
        Some(s) => Some(s@),
        None => None,
    };
    let n: usize = room.slots.len();
    let mut out: Vec<Option<(SocketAddress, Vec<u8>)>> = Vec::new();
    let mut i: usize = 0;
    while i < n
        invariant
            i <= n == start.slots@.len() == room.slots@.len(),
            ex == (match exclude {
                Some(s) => Some(s@),
                None => None,
            }),
            out@.len() == i,
            start.wf(),
            *room == (Room { slots: room.slots, ..start }),
            forall|k: int| i <= k < n ==> room.slots@[k] == start.slots@[k],
            forall|k: int|
                0 <= k < i ==> (room.slots@[k] is Some) == ((#[trigger] start.slots@[k]) is Some),
            forall|k: int|
                0 <= k < i && (#[trigger] start.slots@[k]) is Some ==> kept_seat(
                    start.slots@[k]->0,
                    room.slots@[k]->0,
                ),
            all_notified(start.slots@, room.slots@, ex, note, out@, i as int),
        decreases n - i,
    {
        let ghost before = *room;
        let mut sent: Option<(SocketAddress, Vec<u8>)> = None;
        match &mut room.slots[i] {
            Some(p) => {
                assert(taken(start.slots@, i as int));
                let skipped: bool = match exclude {
                    Some(s) => text_eq(p.user_id.as_str(), s),
                    None => false,
                };
                if !skipped {
                    sent = notify_publisher(p, note);
                }
            },
            None => {},
        }
        proof {
            assert(room.slots@ =~= before.slots@.update(i as int, room.slots@[i as int]));
            if start.slots@[i as int] is Some {
                assert(taken(start.slots@, i as int));
            }
        }
        out.push(sent);
        i += 1;
    }
    proof {
        assert forall|k: int| #[trigger] taken(room.slots@, k) == taken(start.slots@, k) by {
            if 0 <= k < n {
                assert((room.slots@[k] is Some) == (start.slots@[k] is Some));
            }
        }
        assert forall|k: int| #[trigger] taken(room.slots@, k) implies kept_seat(
            start.slots@[k]->0,
            room.slots@[k]->0,
        ) by {
            assert(taken(start.slots@, k));
        }
        lemma_seats_kept(start, *room);
    }
    out
}

/// Whether somebody keeps their seat.
spec fn kept_seat(a: Participant, b: Participant) -> bool {
    &&& b.user_id == a.user_id
    &&& b.publish.ufrag == a.publish.ufrag
    &&& b.publish.address == a.publish.address
    &&& b.subscribe.ufrag == a.subscribe.ufrag
    &&& b.subscribe.address == a.subscribe.address
    &&& b.wf()
}

// ---------------------------------------------------------------------------
// Reports to publishers
// ---------------------------------------------------------------------------

/// Whether a block reports on a stream, whenever its last sender report came.
pub open spec fn reports_on(s: Reception, jitter: u32, b: RrReportBlock) -> bool {
    exists|since: (u64, u32)|
        since.1 < 1_000_000_000 && b == #[trigger] report_block(s, jitter, since)
}

/// Reports on everything that a publisher sends, in the order of `recv_stats`,
/// with the jitter of each stream.
pub fn build_reports(p: &mut Participant, jitters: &Vec<u32>) -> (r: Vec<RrReportBlock>)
    requires
        old(p).wf(),
        jitters@.len() == old(p).recv_stats@.len(),
    ensures
        final(p).wf(),
        *final(p) == (Participant { recv_stats: final(p).recv_stats, ..*old(p) }),
        r@.len() == jitters@.len(),
        forall|i: int|
            0 <= i < r@.len() ==> reports_on(
                receptions(old(p).recv_stats@)[i],
                jitters@[i],
                #[trigger] r@[i],
            ),
        receptions(final(p).recv_stats@) == receptions(old(p).recv_stats@).map_values(
            |s: Reception| after_report(s),
        ),
{
    let ghost start = receptions(p.recv_stats@);
    let ghost whole = *p;
    let n: usize = p.recv_stats.len();
    let mut out: Vec<RrReportBlock> = Vec::new();
    let mut i: usize = 0;
    while i < n
        invariant
            i <= n == p.recv_stats@.len() == jitters@.len() == start.len(),
            *p == (Participant { recv_stats: p.recv_stats, ..whole }),
            p.wf(),
            out@.len() == i,
            forall|k: int|
                0 <= k < i ==> reports_on(start[k], jitters@[k], #[trigger] out@[k]),
            forall|k: int|
                0 <= k < i ==> (#[trigger] p.recv_stats@[k])@ == after_report(start[k]),
            forall|k: int| i <= k < n ==> (#[trigger] p.recv_stats@[k])@ == start[k],
        decreases n - i,
    {
        assert(stats_valid(p.recv_stats@));
        let b = p.recv_stats[i].build_rr_block(jitters[i]);
        assert(reports_on(start[i as int], jitters@[i as int], b));
        out.push(b);
        i += 1;
    }
    assert(receptions(p.recv_stats@) =~= start.map_values(|s: Reception| after_report(s)));
    out
}

/// What is reported to a publisher, and the encrypted packet with its address.
pub struct SentReport {
    pub blocks: Vec<RrReportBlock>,
    pub addr: SocketAddress,
    pub packet: Option<Vec<u8>>,
}

/// Reports to a publisher on what was received of them. Nothing where they are not
/// ready, where nobody knows where they are, or where nothing was received.
pub fn report_to_publisher(p: &mut Participant, jitters: &Vec<u32>) -> (r: Option<SentReport>)
    requires
        old(p).wf(),
        jitters@.len() == old(p).recv_stats@.len(),
    ensures
        final(p).wf(),
        match r {
            None => {
                &&& !old(p).publish.ready() || old(p).publish.address is None || jitters@.len() == 0
                &&& *final(p) == *old(p)
            },
            Some(x) => {
                &&& old(p).publish.ready()
                &&& old(p).publish.address == Some(x.addr)
                &&& x.blocks@.len() == jitters@.len() > 0
                &&& forall|i: int|
                    0 <= i < x.blocks@.len() ==> reports_on(
                        receptions(old(p).recv_stats@)[i],
                        jitters@[i],
                        #[trigger] x.blocks@[i],
                    )
                &&& receptions(final(p).recv_stats@) == receptions(old(p).recv_stats@).map_values(
                    |s: Reception| after_report(s),
                )
                &&& *final(p) == (Participant {
                    recv_stats: final(p).recv_stats,
                    publish: final(p).publish,
                    ..*old(p)
                })
                &&& final(p).publish == (MediaSession {
                    outbound_srtp: final(p).publish.outbound_srtp,
                    ..old(p).publish
                })
                &&& sealed_rtcp(
                    old(p).publish.outbound_srtp@,
                    final(p).publish.outbound_srtp@,
                    receiver_report(SERVER_SSRC, x.blocks@),
                    match x.packet {
                        Some(v) => Some(v@),
                        None => None,
                    },
                )
            },
        },
{
    if !p.is_publish_ready() {
        return None;
    }
    let addr: SocketAddress = match p.publish.get_address() {
        Some(a) => a,
        None => {
            return None;
        },
    };
    if p.recv_stats.len() == 0 {
        return None;
    }
    let blocks = build_reports(p, jitters);
    let plain = build_receiver_report(SERVER_SSRC, &blocks);
    let packet = seal_for_publisher(p, &plain);
    Some(SentReport { blocks, addr, packet })
}

} // verus!
