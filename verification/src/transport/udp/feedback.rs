//! Feedback and reports on their way between subscribers and publishers.

use vstd::prelude::*;
use vstd::slice::slice_subrange;

use crate::config::{self, RoomMode};
use crate::room::participant::{
    find_layer, find_recv, find_send, layer_ssrc, receptions, recv_place, send_at, ssrc_of_layer,
    MediaSession, Participant, TrackKind,
};
use crate::room::room::{publisher_at, taken, Room};
use crate::text::text_eq;
use crate::transport::addr::SocketAddress;
use crate::transport::srtp::{
    after_rtcp, opens_to, rtcp_index, srtcp_opened, srtcp_sealed, SrtpState,
};
use crate::transport::udp::fanout::{forwards_of, has_floor, holds_floor, is_target};
use crate::transport::udp::nack::{
    find_heard_ssrc, heard_ssrc, received_layer, simulcast_publisher, ssrc_or,
};
use crate::transport::udp::rtcp::{block_bytes, block_slice, blocks_within, RtcpBlockRef};
use crate::transport::udp::rtcp_terminator::{after_sr, parse_sr_ntp, sr_ntp, Reception, SendStats};
use crate::wire::{be32, be32_bytes, lemma_be32_roundtrip, push_all, push_u32, read_u32, runs};

verus! {

// ---------------------------------------------------------------------------
// Feedback of a subscriber
// ---------------------------------------------------------------------------

/// The SSRC that the server itself receives the media under that a subscriber's
/// feedback is about.
pub open spec fn effective_ssrc(room: Room, sub: int, ssrc: u32) -> u32 {
    if room.simulcast_enabled {
        match simulcast_publisher(room, ssrc) {
            Some(i) => match received_layer(room, sub, i) {
                Some(k) => ssrc_or(
                    layer_ssrc(
                        room.slots@[i]->0.tracks@,
                        room.slots@[sub]->0.subscribe_layers@[k].rid@,
                    ),
                    ssrc,
                ),
                None => ssrc,
            },
            None => ssrc,
        }
    } else if room.mode == RoomMode::Ptt && ssrc == room.video_rewriter@.ssrc {
        ssrc_or(heard_ssrc(room, TrackKind::Video), ssrc)
    } else if room.mode == RoomMode::Ptt && ssrc == room.audio_rewriter@.ssrc {
        ssrc_or(heard_ssrc(room, TrackKind::Audio), ssrc)
    } else {
        ssrc
    }
}

pub fn resolve_feedback_ssrc(room: &Room, subscriber: usize, ssrc: u32) -> (r: u32)
    requires
        room.wf(),
        taken(room.slots@, subscriber as int),
    ensures
        r == effective_ssrc(*room, subscriber as int, ssrc),
{
    if room.simulcast_enabled {
        if let Some(i) = room.find_publisher_by_vssrc(ssrc) {
            if let (Some(p), Some(sub)) = (&room.slots[i], &room.slots[subscriber]) {
                if let Some(k) = find_layer(&sub.subscribe_layers, p.user_id.as_str()) {
                    if let Some(s) = ssrc_of_layer(
                        &p.tracks,
                        sub.subscribe_layers[k].rid.as_str(),
                    ) {
                        return s;
                    }
                }
            }
        }
        return ssrc;
    }
    if room.mode == RoomMode::Ptt {
        let kind = if ssrc == room.video_rewriter.virtual_ssrc() {
            TrackKind::Video
        } else if ssrc == room.audio_rewriter.virtual_ssrc() {
            TrackKind::Audio
        } else {
            return ssrc;
        };
        return match find_heard_ssrc(room, kind) {
            Some(s) => s,
            None => ssrc,
        };
    }
    ssrc
}

/// The feedback about one SSRC: its blocks one after the other, and how many of
/// them are payload-specific.
pub struct FeedbackGroup {
    pub ssrc: u32,
    pub bytes: Vec<u8>,
    pub plis: u64,
}

pub struct Feedback {
    pub ssrc: u32,
    pub bytes: Seq<u8>,
    pub plis: int,
}

impl View for FeedbackGroup {
    type V = Feedback;

    open spec fn view(&self) -> Feedback {
        Feedback { ssrc: self.ssrc, bytes: self.bytes@, plis: self.plis as int }
    }
}

pub open spec fn groups_of(v: Seq<FeedbackGroup>) -> Seq<Feedback> {
    v.map_values(|g: FeedbackGroup| g@)
}

/// The place of the feedback about an SSRC.
pub open spec fn group_at(groups: Seq<Feedback>, ssrc: u32) -> Option<int>
    decreases groups.len(),
{
    if groups.len() == 0 {
        None
    } else if groups.last().ssrc == ssrc {
        Some(groups.len() - 1)
    } else {
        group_at(groups.drop_last(), ssrc)
    }
}

/// The groups with one block more.
pub open spec fn grouped(groups: Seq<Feedback>, ssrc: u32, bytes: Seq<u8>) -> Seq<Feedback> {
    let pli: int = if bytes[1] == config::RTCP_PT_PSFB { 1 } else { 0 };
    match group_at(groups, ssrc) {
        Some(k) => groups.update(
            k,
            Feedback { ssrc, bytes: groups[k].bytes + bytes, plis: groups[k].plis + pli },
        ),
        None => groups.push(Feedback { ssrc, bytes, plis: pli }),
    }
}

/// The first `n` blocks grouped by what they are about, in the order in which
/// each SSRC is first spoken of. Blocks that are about no SSRC are left out.
pub open spec fn feedback_groups(
    room: Room,
    sub: int,
    buf: Seq<u8>,
    blocks: Seq<RtcpBlockRef>,
    n: int,
) -> Seq<Feedback>
    decreases n,
{
    if n <= 0 {
        Seq::empty()
    } else {
        let before = feedback_groups(room, sub, buf, blocks, n - 1);
        let b = blocks[n - 1];
        if b.media_ssrc == 0 {
            before
        } else {
            grouped(before, effective_ssrc(room, sub, b.media_ssrc), block_bytes(buf, b))
        }
    }
}

/// Groups the blocks of a subscriber by what they are about.
pub fn group_feedback(
    room: &Room,
    subscriber: usize,
    plaintext: &[u8],
    blocks: &Vec<RtcpBlockRef>,
) -> (r: Vec<FeedbackGroup>)
    requires
        room.wf(),
        taken(room.slots@, subscriber as int),
        blocks_within(plaintext@, blocks@),
    ensures
        groups_of(r@) == feedback_groups(
            *room,
            subscriber as int,
            plaintext@,
            blocks@,
            blocks@.len() as int,
        ),
{
    let mut groups: Vec<FeedbackGroup> = Vec::new();
    let mut n: usize = 0;
    assert(groups_of(groups@) =~= Seq::empty());
    while n < blocks.len()
        invariant
            room.wf(),
            taken(room.slots@, subscriber as int),
            blocks_within(plaintext@, blocks@),
            n <= blocks@.len(),
            forall|k: int| 0 <= k < groups@.len() ==> (#[trigger] groups@[k]).plis <= n,
            groups_of(groups@) == feedback_groups(
                *room,
                subscriber as int,
                plaintext@,
                blocks@,
                n as int,
            ),
        decreases blocks@.len() - n,
    {
        let b = blocks[n];
        n += 1;
        if b.media_ssrc == 0 {
            continue;
        }
        let ssrc: u32 = resolve_feedback_ssrc(room, subscriber, b.media_ssrc);
        let bytes = block_slice(plaintext, &b);
        let pli: u64 = if bytes[1] == config::RTCP_PT_PSFB { 1 } else { 0 };
        let ghost before = groups_of(groups@);
        let mut k: usize = groups.len();
        assert(before.take(k as int) =~= before);
        while k > 0 && groups[k - 1].ssrc != ssrc
            invariant
                k <= groups@.len(),
                before == groups_of(groups@),
                group_at(before, ssrc) == group_at(before.take(k as int), ssrc),
            decreases k,
        {
            assert(before.take(k as int).drop_last() =~= before.take(k - 1));
            assert(before.take(k as int).last() == groups@[k - 1]@);
            k -= 1;
        }
        if k > 0 {
            assert(before.take(k as int).last() == groups@[k - 1]@);
            push_all(&mut groups[k - 1].bytes, bytes);
            groups[k - 1].plis = groups[k - 1].plis + pli;
            assert(groups_of(groups@) =~= grouped(before, ssrc, bytes@));
        } else {
            let mut copy: Vec<u8> = Vec::new();
            push_all(&mut copy, bytes);
            assert(copy@ =~= bytes@);
            groups.push(FeedbackGroup { ssrc, bytes: copy, plis: pli });
            assert(groups_of(groups@) =~= grouped(before, ssrc, bytes@));
        }
    }
    groups
}

/// No feedback is lost and none is made up: the groups together hold as many
/// bytes as the blocks that are about some SSRC.
pub proof fn law_groups_keep_bytes(
    room: Room,
    sub: int,
    buf: Seq<u8>,
    blocks: Seq<RtcpBlockRef>,
    n: int,
)
    requires
        blocks_within(buf, blocks),
        0 <= n <= blocks.len(),
    ensures
        grouped_len(feedback_groups(room, sub, buf, blocks, n)) == relayed_len(blocks, n),
    decreases n,
{
    if n > 0 {
        law_groups_keep_bytes(room, sub, buf, blocks, n - 1);
        let before = feedback_groups(room, sub, buf, blocks, n - 1);
        let b = blocks[n - 1];
        if b.media_ssrc != 0 {
            lemma_grouped_len(
                before,
                effective_ssrc(room, sub, b.media_ssrc),
                block_bytes(buf, b),
            );
        }
    }
}

/// How many bytes groups hold.
pub open spec fn grouped_len(groups: Seq<Feedback>) -> int
    decreases groups.len(),
{
    if groups.len() == 0 {
        0
    } else {
        grouped_len(groups.drop_last()) + groups.last().bytes.len()
    }
}

/// How many bytes the first `n` blocks hold that are about some SSRC.
pub open spec fn relayed_len(blocks: Seq<RtcpBlockRef>, n: int) -> int
    decreases n,
{
    if n <= 0 {
        0
    } else {
        relayed_len(blocks, n - 1) + if blocks[n - 1].media_ssrc == 0 {
            0
        } else {
            blocks[n - 1].length as int
        }
    }
}

proof fn lemma_grouped_len(groups: Seq<Feedback>, ssrc: u32, bytes: Seq<u8>)
    ensures
        grouped_len(grouped(groups, ssrc, bytes)) == grouped_len(groups) + bytes.len(),
    decreases groups.len(),
{
    let all = grouped(groups, ssrc, bytes);
    if groups.len() == 0 {
        assert(all.drop_last() =~= groups);
    } else if groups.last().ssrc == ssrc {
        assert(all.drop_last() =~= groups.drop_last());
    } else {
        let rest = groups.drop_last();
        lemma_group_at(rest, ssrc);
        lemma_grouped_len(rest, ssrc, bytes);
        if group_at(rest, ssrc) is Some {
            let k = group_at(rest, ssrc)->0;
            assert(all.drop_last() =~= grouped(rest, ssrc, bytes));
            assert(all.last() == groups.last());
        } else {
            assert(all.drop_last() =~= groups);
        }
    }
}

proof fn lemma_group_at(groups: Seq<Feedback>, ssrc: u32)
    ensures
        group_at(groups, ssrc) matches Some(k) ==> 0 <= k < groups.len() && groups[k].ssrc == ssrc,
    decreases groups.len(),
{
    if groups.len() > 0 && groups.last().ssrc != ssrc {
        lemma_group_at(groups.drop_last(), ssrc);
    }
}

/// Where a group of feedback goes: to the publisher of the SSRC, once their
/// session is ready and its address known.
pub open spec fn feedback_target(room: Room, ssrc: u32) -> Option<(int, SocketAddress)> {
    match publisher_at(room.slots@, ssrc, 0) {
        Some(i) => {
            let p = room.slots@[i]->0;
            if p.publish.ready() && p.publish.address is Some {
                Some((i, p.publish.address->0))
            } else {
                None
            }
        },
        None => None,
    }
}

pub fn find_feedback_target(room: &Room, ssrc: u32) -> (r: Option<(usize, SocketAddress)>)
    ensures
        match r {
            Some((i, a)) => feedback_target(*room, ssrc) == Some((i as int, a)) && taken(
                room.slots@,
                i as int,
            ),
            None => feedback_target(*room, ssrc) is None,
        },
{
    match room.find_by_track_ssrc(ssrc) {
        Some(i) => match &room.slots[i] {
            Some(p) => {
                if !p.is_publish_ready() {
                    return None;
                }
                match p.publish.get_address() {
                    Some(a) => Some((i, a)),
                    None => None,
                }
            },
            None => None,
        },
        None => None,
    }
}

/// The session of a publisher after a packet was encrypted for it.
pub open spec fn sealed_for(a: Participant, b: Participant) -> bool {
    &&& b.publish == (MediaSession {
        outbound_srtp: b.publish.outbound_srtp,
        ..a.publish
    })
    &&& b == (Participant { publish: b.publish, ..a })
}

/// What becomes of an RTCP packet that is to be encrypted: nothing without keys or
/// where it is no RTCP packet, else a packet from which the keys get it back.
pub open spec fn sealed_rtcp(
    a: Option<SrtpState>,
    b: Option<SrtpState>,
    plain: Seq<u8>,
    r: Option<Seq<u8>>,
) -> bool {
    match (a, r) {
        (Some(s), Some(v)) => {
            &&& plain.len() >= 8 && plain[0] / 64 == 2
            &&& srtcp_sealed(s.secret, rtcp_index(s, plain), plain) == opens_to(v)
            &&& srtcp_opened(s.secret, v) == opens_to(plain)
            &&& b == Some(after_rtcp(s, plain))
        },
        (Some(s), None) => !(plain.len() >= 8 && plain[0] / 64 == 2) && b == a,
        (None, Some(_)) => false,
        (None, None) => b == a,
    }
}

/// Encrypts an RTCP packet for a publisher.
pub fn seal_for_publisher(p: &mut Participant, plain: &[u8]) -> (r: Option<Vec<u8>>)
    requires
        old(p).wf(),
    ensures
        final(p).wf(),
        sealed_for(*old(p), *final(p)),
        sealed_rtcp(
            old(p).publish.outbound_srtp@,
            final(p).publish.outbound_srtp@,
            plain@,
            match r {
                Some(v) => Some(v@),
                None => None,
            },
        ),
{
    match p.publish.outbound_srtp.encrypt_rtcp(plain) {
        Ok(v) => Some(v),
        Err(_) => None,
    }
}

// ---------------------------------------------------------------------------
// Sender reports of a publisher
// ---------------------------------------------------------------------------

/// How a sender report is changed for a subscriber.
#[derive(Debug, Clone, Copy, PartialEq, Eq, Structural)]
pub struct SrTranslation {
    /// Another SSRC.
    pub ssrc: Option<u32>,
    /// Another RTP time.
    pub rtp_ts: Option<u32>,
    pub packet_count: u32,
    pub octet_count: u32,
}

/// A sender report changed for a subscriber. The NTP time and what follows the
/// sender's information stay as they are.
pub open spec fn translated_sr(sr: Seq<u8>, t: SrTranslation) -> Seq<u8> {
    sr.subrange(0, 4) + be32_bytes(ssrc_or(t.ssrc, be32(sr, 4))) + sr.subrange(8, 16) + be32_bytes(
        ssrc_or(t.rtp_ts, be32(sr, 16)),
    ) + be32_bytes(t.packet_count) + be32_bytes(t.octet_count) + sr.subrange(28, sr.len() as int)
}

/// Changes a sender report for a subscriber; nothing where the block is none.
pub fn translate_sr(sr_block: &[u8], t: &SrTranslation) -> (r: Option<Vec<u8>>)
    ensures
        match r {
            Some(v) => sr_ntp(sr_block@) is Some && v@ == translated_sr(sr_block@, *t),
            None => sr_ntp(sr_block@) is None,
        },
{
    if parse_sr_ntp(sr_block).is_none() {
        return None;
    }
    let ssrc: u32 = match t.ssrc {
        Some(s) => s,
        None => read_u32(sr_block, 4),
    };
    let rtp_ts: u32 = match t.rtp_ts {
        Some(s) => s,
        None => read_u32(sr_block, 16),
    };
    let mut out: Vec<u8> = Vec::new();
    push_all(&mut out, slice_subrange(sr_block, 0, 4));
    push_u32(&mut out, ssrc);
    push_all(&mut out, slice_subrange(sr_block, 8, 16));
    push_u32(&mut out, rtp_ts);
    push_u32(&mut out, t.packet_count);
    push_u32(&mut out, t.octet_count);
    push_all(&mut out, slice_subrange(sr_block, 28, sr_block.len()));
    assert(out@ =~= translated_sr(sr_block@, *t));
    Some(out)
}

/// A subscriber sees the publisher's own NTP time: it is the reference by which
/// sound and picture are put together.
pub proof fn law_translation_keeps_ntp(sr: Seq<u8>, t: SrTranslation)
    requires
        sr_ntp(sr) is Some,
    ensures
        ({
            let v = translated_sr(sr, t);
            &&& v.len() == sr.len()
            &&& sr_ntp(v) == Some((ssrc_or(t.ssrc, be32(sr, 4)), be32(sr, 8), be32(sr, 12)))
            &&& be32(v, 16) == ssrc_or(t.rtp_ts, be32(sr, 16))
            &&& be32(v, 20) == t.packet_count
            &&& be32(v, 24) == t.octet_count
            &&& v.subrange(28, v.len() as int) == sr.subrange(28, sr.len() as int)
        }),
{
    let v = translated_sr(sr, t);
    assert(v.subrange(4, 8) =~= be32_bytes(ssrc_or(t.ssrc, be32(sr, 4))));
    lemma_be32_roundtrip(v, 4, ssrc_or(t.ssrc, be32(sr, 4)));
    assert(v.subrange(16, 20) =~= be32_bytes(ssrc_or(t.rtp_ts, be32(sr, 16))));
    lemma_be32_roundtrip(v, 16, ssrc_or(t.rtp_ts, be32(sr, 16)));
    assert(v.subrange(20, 24) =~= be32_bytes(t.packet_count));
    lemma_be32_roundtrip(v, 20, t.packet_count);
    assert(v.subrange(24, 28) =~= be32_bytes(t.octet_count));
    lemma_be32_roundtrip(v, 24, t.octet_count);
    assert(v.subrange(28, v.len() as int) =~= sr.subrange(28, sr.len() as int));
}

/// What was sent to a subscriber under an SSRC.
pub open spec fn sent_counts(stats: Seq<SendStats>, ssrc: u32) -> (u32, u32) {
    match send_at(stats, ssrc) {
        Some(i) => (stats[i].packets_sent, stats[i].bytes_sent),
        None => (0, 0),
    }
}

fn counts_for(stats: &Vec<SendStats>, ssrc: u32) -> (r: (u32, u32))
    ensures
        r == sent_counts(stats@, ssrc),
{
    match find_send(stats, ssrc) {
        Some(i) => (stats[i].packets_sent, stats[i].bytes_sent),
        None => (0, 0),
    }
}

/// Whether a publisher's SSRC is a track of a kind.
pub open spec fn is_kind(p: Participant, ssrc: u32, kind: TrackKind) -> bool {
    exists|i: int|
        0 <= i < p.tracks@.len() && (#[trigger] p.tracks@[i]).ssrc == ssrc && p.tracks@[i].kind
            == kind
}

pub fn has_kind(p: &Participant, ssrc: u32, kind: TrackKind) -> (r: bool)
    ensures
        r == is_kind(*p, ssrc, kind),
{
    let mut i: usize = 0;
    while i < p.tracks.len()
        invariant
            i <= p.tracks@.len(),
            forall|k: int|
                0 <= k < i ==> !((#[trigger] p.tracks@[k]).ssrc == ssrc && p.tracks@[k].kind == kind),
        decreases p.tracks@.len() - i,
    {
        if p.tracks[i].ssrc == ssrc && p.tracks[i].kind == kind {
            return true;
        }
        i += 1;
    }
    false
}

/// Whose report a block is; 0 where it is too short to tell.
pub open spec fn report_source(sr: Seq<u8>) -> u32 {
    if sr.len() >= 8 {
        be32(sr, 4)
    } else {
        0
    }
}

pub fn source_of_report(sr: &[u8]) -> (r: u32)
    ensures
        r == report_source(sr@),
{
    if sr.len() >= 8 {
        read_u32(sr, 4)
    } else {
        0
    }
}

/// How a publisher's report is changed for a subscriber. In a push-to-talk room
/// it speaks of the room's stream; in a simulcast room the video has the SSRC
/// under which the subscriber sees it; the counts are those of what was sent to
/// the subscriber.
pub open spec fn sr_translation(
    room: Room,
    sr: Seq<u8>,
    sender: Participant,
    target: Participant,
    vssrc: u32,
) -> SrTranslation {
    let ssrc = report_source(sr);
    let rtp_ts = if sr.len() >= 20 { be32(sr, 16) } else { 0 };
    if room.mode == RoomMode::Ptt {
        let s = if is_kind(sender, ssrc, TrackKind::Audio) {
            room.audio_rewriter@
        } else {
            room.video_rewriter@
        };
        SrTranslation {
            ssrc: Some(s.ssrc),
            rtp_ts: if s.speaker is None || s.awaiting_first {
                None
            } else {
                Some(rtp_ts.wrapping_sub(s.origin_ts).wrapping_add(s.base_ts))
            },
            packet_count: sent_counts(target.send_stats@, s.ssrc).0,
            octet_count: sent_counts(target.send_stats@, s.ssrc).1,
        }
    } else if room.simulcast_enabled && is_kind(sender, ssrc, TrackKind::Video) {
        SrTranslation {
            ssrc: Some(vssrc),
            rtp_ts: None,
            packet_count: sent_counts(target.send_stats@, vssrc).0,
            octet_count: sent_counts(target.send_stats@, vssrc).1,
        }
    } else {
        SrTranslation {
            ssrc: None,
            rtp_ts: None,
            packet_count: sent_counts(target.send_stats@, ssrc).0,
            octet_count: sent_counts(target.send_stats@, ssrc).1,
        }
    }
}

pub fn build_sr_translation(
    room: &Room,
    sr_block: &[u8],
    sender: &Participant,
    target: &Participant,
    vssrc: u32,
) -> (r: SrTranslation)
    ensures
        r == sr_translation(*room, sr_block@, *sender, *target, vssrc),
{
    let pub_ssrc: u32 = source_of_report(sr_block);
    let rtp_ts: u32 = if sr_block.len() >= 20 { read_u32(sr_block, 16) } else { 0 };
    if room.mode == RoomMode::Ptt {
        let rewriter = if has_kind(sender, pub_ssrc, TrackKind::Audio) {
            &room.audio_rewriter
        } else {
            &room.video_rewriter
        };
        let virtual_ssrc: u32 = rewriter.virtual_ssrc();
        let (packet_count, octet_count) = counts_for(&target.send_stats, virtual_ssrc);
        return SrTranslation {
            ssrc: Some(virtual_ssrc),
            rtp_ts: rewriter.translate_rtp_ts(rtp_ts),
            packet_count,
            octet_count,
        };
    }
    if room.simulcast_enabled && has_kind(sender, pub_ssrc, TrackKind::Video) {
        let (packet_count, octet_count) = counts_for(&target.send_stats, vssrc);
        return SrTranslation { ssrc: Some(vssrc), rtp_ts: None, packet_count, octet_count };
    }
    let (packet_count, octet_count) = counts_for(&target.send_stats, pub_ssrc);
    SrTranslation { ssrc: None, rtp_ts: None, packet_count, octet_count }
}

/// A report as a subscriber gets it; what is no report passes unchanged.
pub open spec fn sr_for(room: Room, sr: Seq<u8>, sender: Participant, target: Participant, vssrc: u32) -> Seq<
    u8,
> {
    if sr_ntp(sr) is Some {
        translated_sr(sr, sr_translation(room, sr, sender, target, vssrc))
    } else {
        sr
    }
}

/// In a conference without simulcast a report speaks of the publisher's own
/// source and time; only the counts are those of what the subscriber was sent.
pub proof fn law_conference_report_keeps_source(
    room: Room,
    sr: Seq<u8>,
    sender: Participant,
    target: Participant,
    vssrc: u32,
)
    requires
        room.mode != RoomMode::Ptt,
        !room.simulcast_enabled,
        sr_ntp(sr) is Some,
    ensures
        ({
            let v = sr_for(room, sr, sender, target, vssrc);
            let counts = sent_counts(target.send_stats@, be32(sr, 4));
            &&& v.len() == sr.len()
            &&& sr_ntp(v) == sr_ntp(sr)
            &&& be32(v, 16) == be32(sr, 16)
            &&& (be32(v, 20), be32(v, 24)) == counts
        }),
{
    law_translation_keeps_ntp(sr, sr_translation(room, sr, sender, target, vssrc));
}

/// With simulcast a report on video speaks of the SSRC under which the subscriber
/// sees it.
pub proof fn law_simulcast_report_is_virtual(
    room: Room,
    sr: Seq<u8>,
    sender: Participant,
    target: Participant,
    vssrc: u32,
)
    requires
        room.mode != RoomMode::Ptt,
        room.simulcast_enabled,
        sr_ntp(sr) is Some,
        is_kind(sender, be32(sr, 4), TrackKind::Video),
    ensures
        ({
            let v = sr_for(room, sr, sender, target, vssrc);
            &&& sr_ntp(v) == Some((vssrc, be32(sr, 8), be32(sr, 12)))
            &&& be32(v, 16) == be32(sr, 16)
        }),
{
    law_translation_keeps_ntp(sr, sr_translation(room, sr, sender, target, vssrc));
}

/// The first `n` reports as a subscriber gets them.
pub open spec fn srs_for(
    room: Room,
    srs: Seq<Seq<u8>>,
    sender: Participant,
    target: Participant,
    vssrc: u32,
    n: int,
) -> Seq<u8>
    decreases n,
{
    if n <= 0 {
        Seq::empty()
    } else {
        srs_for(room, srs, sender, target, vssrc, n - 1) + sr_for(
            room,
            srs[n - 1],
            sender,
            target,
            vssrc,
        )
    }
}

/// The first `n` runs one after the other.
pub open spec fn in_a_row(v: Seq<Seq<u8>>, n: int) -> Seq<u8>
    decreases n,
{
    if n <= 0 {
        Seq::empty()
    } else {
        in_a_row(v, n - 1) + v[n - 1]
    }
}

/// What a subscriber gets of a publisher's RTCP: in a conference the reports, and
/// in any room the feedback.
pub open spec fn publish_rtcp_for(
    room: Room,
    srs: Seq<Seq<u8>>,
    feedback: Seq<Seq<u8>>,
    sender: Participant,
    target: Participant,
    vssrc: u32,
) -> Seq<u8> {
    let reports = if room.mode == RoomMode::Ptt {
        Seq::empty()
    } else {
        srs_for(room, srs, sender, target, vssrc, srs.len() as int)
    };
    reports + in_a_row(feedback, feedback.len() as int)
}

/// In push-to-talk no reports are relayed.
pub proof fn law_ptt_relays_no_reports(
    room: Room,
    srs: Seq<Seq<u8>>,
    feedback: Seq<Seq<u8>>,
    sender: Participant,
    target: Participant,
    vssrc: u32,
)
    requires
        room.mode == RoomMode::Ptt,
    ensures
        publish_rtcp_for(room, srs, feedback, sender, target, vssrc) == in_a_row(
            feedback,
            feedback.len() as int,
        ),
{
    assert(publish_rtcp_for(room, srs, feedback, sender, target, vssrc) =~= in_a_row(
        feedback,
        feedback.len() as int,
    ));
}

/// Whether there is anything for the subscribers in a publisher's RTCP.
pub open spec fn publish_rtcp_relayed(room: Room, srs: Seq<Seq<u8>>, feedback: Seq<Seq<u8>>, user: Seq<char>) -> bool {
    &&& room.mode == RoomMode::Ptt ==> has_floor(room, user)
    &&& (room.mode != RoomMode::Ptt && srs.len() > 0) || feedback.len() > 0
}

/// What the targets among the first `n` places get of a publisher's RTCP.
pub open spec fn publish_rtcp_out(
    room: Room,
    srs: Seq<Seq<u8>>,
    feedback: Seq<Seq<u8>>,
    sender: Participant,
    vssrc: u32,
    n: int,
) -> Seq<(usize, Seq<u8>)>
    decreases n,
{
    if n <= 0 {
        Seq::empty()
    } else {
        let before = publish_rtcp_out(room, srs, feedback, sender, vssrc, n - 1);
        if is_target(room.slots@, sender.user_id@, n - 1) {
            before.push(
                (
                    (n - 1) as usize,
                    publish_rtcp_for(room, srs, feedback, sender, room.slots@[n - 1]->0, vssrc),
                ),
            )
        } else {
            before
        }
    }
}

fn compose_rtcp(
    room: &Room,
    srs: &Vec<Vec<u8>>,
    feedback: &Vec<Vec<u8>>,
    sender: &Participant,
    target: &Participant,
    vssrc: u32,
) -> (r: Vec<u8>)
    ensures
        r@ == publish_rtcp_for(*room, runs(srs@), runs(feedback@), *sender, *target, vssrc),
{
    let mut out: Vec<u8> = Vec::new();
    let ghost reports = runs(srs@);
    if room.mode != RoomMode::Ptt {
        let mut i: usize = 0;
        while i < srs.len()
            invariant
                i <= srs@.len(),
                reports == runs(srs@),
                out@ == srs_for(*room, reports, *sender, *target, vssrc, i as int),
            decreases srs@.len() - i,
        {
            let t = build_sr_translation(room, &srs[i], sender, target, vssrc);
            match translate_sr(&srs[i], &t) {
                Some(v) => push_all(&mut out, &v),
                None => push_all(&mut out, &srs[i]),
            }
            i += 1;
        }
    }
    let ghost head = out@;
    let mut k: usize = 0;
    assert(out@ =~= head + in_a_row(runs(feedback@), 0));
    while k < feedback.len()
        invariant
            k <= feedback@.len(),
            out@ == head + in_a_row(runs(feedback@), k as int),
        decreases feedback@.len() - k,
    {
        push_all(&mut out, &feedback[k]);
        k += 1;
        assert(out@ =~= head + in_a_row(runs(feedback@), k as int));
    }
    out
}

/// The RTCP of the participant at `sender` for each subscriber. `vssrc` is the
/// SSRC under which subscribers of a simulcast room see the video.
pub fn relay_publish_rtcp_translated(
    room: &Room,
    sender: usize,
    srs: &Vec<Vec<u8>>,
    feedback: &Vec<Vec<u8>>,
    vssrc: u32,
) -> (r: Vec<(usize, Vec<u8>)>)
    requires
        taken(room.slots@, sender as int),
    ensures
        ({
            let p = room.slots@[sender as int]->0;
            forwards_of(r@) == (if publish_rtcp_relayed(
                *room,
                runs(srs@),
                runs(feedback@),
                p.user_id@,
            ) {
                publish_rtcp_out(
                    *room,
                    runs(srs@),
                    runs(feedback@),
                    p,
                    vssrc,
                    room.slots@.len() as int,
                )
            } else {
                Seq::empty()
            })
        }),
{
    let mut out: Vec<(usize, Vec<u8>)> = Vec::new();
    assert(forwards_of(out@) =~= Seq::empty());
    if let Some(p) = &room.slots[sender] {
        if room.mode == RoomMode::Ptt && !holds_floor(room, p.user_id.as_str()) {
            return out;
        }
        if !((room.mode != RoomMode::Ptt && srs.len() > 0) || feedback.len() > 0) {
            return out;
        }
        let mut i: usize = 0;
        while i < room.slots.len()
            invariant
                i <= room.slots@.len(),
                forwards_of(out@) == publish_rtcp_out(
                    *room,
                    runs(srs@),
                    runs(feedback@),
                    *p,
                    vssrc,
                    i as int,
                ),
            decreases room.slots@.len() - i,
        {
            if let Some(t) = &room.slots[i] {
                if !text_eq(t.user_id.as_str(), p.user_id.as_str())
                    && t.is_subscribe_ready() {
                    let ghost before = out@;
                    let bytes = compose_rtcp(room, srs, feedback, p, t, vssrc);
                    out.push((i, bytes));
                    assert(forwards_of(out@)
                        =~= forwards_of(before).push((i, bytes@)));
                }
            }
            i += 1;
        }
    }
    out
}

/// The times of the first `n` reports noted.
pub open spec fn srs_noted(stats: Seq<Reception>, buf: Seq<u8>, blocks: Seq<RtcpBlockRef>, n: int) -> Seq<
    Reception,
>
    decreases n,
{
    if n <= 0 {
        stats
    } else {
        let before = srs_noted(stats, buf, blocks, n - 1);
        match sr_ntp(block_bytes(buf, blocks[n - 1])) {
            Some((ssrc, hi, lo)) => match recv_place(before, ssrc) {
                Some(i) => before.update(
                    i,
                    after_sr(before[i], hi, lo),
                ),
                None => before,
            },
            None => before,
        }
    }
}

/// Notes the times of a publisher's reports.
pub fn consume_sender_reports(p: &mut Participant, plaintext: &[u8], blocks: &Vec<RtcpBlockRef>)
    requires
        old(p).wf(),
        blocks_within(plaintext@, blocks@),
    ensures
        final(p).wf(),
        *final(p) == (Participant { recv_stats: final(p).recv_stats, ..*old(p) }),
        receptions(final(p).recv_stats@) == srs_noted(
            receptions(old(p).recv_stats@),
            plaintext@,
            blocks@,
            blocks@.len() as int,
        ),
{
    let mut n: usize = 0;
    while n < blocks.len()
        invariant
            blocks_within(plaintext@, blocks@),
            n <= blocks@.len(),
            p.wf(),
            *p == (Participant { recv_stats: p.recv_stats, ..*old(p) }),
            receptions(p.recv_stats@) == srs_noted(
                receptions(old(p).recv_stats@),
                plaintext@,
                blocks@,
                n as int,
            ),
        decreases blocks@.len() - n,
    {
        let b = blocks[n];
        let bytes = block_slice(plaintext, &b);
        if let Some((ssrc, hi, lo)) = parse_sr_ntp(bytes) {
            if let Some(i) = find_recv(&p.recv_stats, ssrc) {
                let ghost before = p.recv_stats@;
                p.recv_stats[i].on_sr_received(hi, lo);
                assert(receptions(p.recv_stats@) =~= receptions(before).update(
                    i as int,
                    after_sr(before[i as int]@, hi, lo),
                ));
            }
        }
        n += 1;
    }
}

} // verus!
