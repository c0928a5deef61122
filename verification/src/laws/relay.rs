//! Laws of relaying control packets: feedback of subscribers reaches the publisher
//! whose media it is about, and reports of publishers reach the subscribers.

use vstd::prelude::*;

use crate::config::RoomMode;
use crate::laws::lookup::{
    law_choice_of_layer, law_member_by_name, law_publisher, law_reception_by_ssrc,
    law_seen_publisher, law_sent_by_ssrc, law_track_by_kind, law_track_by_layer, of_kind, of_layer,
    publishes, seen_under,
};
use crate::laws::reports::law_last_sr;
use crate::room::participant::{recv_place, Participant, TrackKind};
use crate::room::ptt_rewriter::{after_rewrite, law_rewrite_touches_header_only, rewritten, Stream};
use crate::room::room::{taken, Room};
use crate::transport::addr::SocketAddress;
use crate::transport::udp::feedback::{
    effective_ssrc, feedback_groups, feedback_target, group_at, grouped, in_a_row,
    law_translation_keeps_ntp, publish_rtcp_for, publish_rtcp_out, publish_rtcp_relayed, sr_for,
    sr_translation, srs_for, srs_noted, Feedback,
};
use crate::transport::udp::rtcp::{block_bytes, RtcpBlockRef};
use crate::transport::udp::rtcp_terminator::{after_sr, report_block, sr_ntp, Reception};
use crate::wire::be32;

verus! {

// ---------------------------------------------------------------------------
// Feedback of subscribers
// ---------------------------------------------------------------------------

/// Whether somebody at a place has the floor, or had it last where it is free.
pub open spec fn heard_at(room: Room, i: int) -> bool {
    &&& 0 <= i < room.slots@.len()
    &&& room.slots@[i] is Some
    &&& match room.floor@.burst {
        Some(b) => b.speaker == room.slots@[i]->0.user_id@,
        None => room.floor@.prev_speaker == Some(room.slots@[i]->0.user_id@),
    }
}

/// Whether a track is somebody's first one of a kind.
pub open spec fn first_of_kind(p: Participant, kind: TrackKind, k: int) -> bool {
    of_kind(p.tracks@, kind, k) && forall|j: int|
        0 <= j < k ==> !#[trigger] of_kind(p.tracks@, kind, j)
}

/// In a push-to-talk room feedback on the video stream is on the video of whoever
/// is heard, and feedback on the audio stream on their audio.
pub proof fn law_ptt_feedback_is_on_speaker(room: Room, sub: int, speaker: int, k: int)
    requires
        room.wf(),
        room.mode == RoomMode::Ptt,
        heard_at(room, speaker),
    ensures
        first_of_kind(room.slots@[speaker]->0, TrackKind::Video, k) ==> effective_ssrc(
            room,
            sub,
            room.video_rewriter@.ssrc,
        ) == room.slots@[speaker]->0.tracks@[k].ssrc,
        first_of_kind(room.slots@[speaker]->0, TrackKind::Audio, k) && room.audio_rewriter@.ssrc
            != room.video_rewriter@.ssrc ==> effective_ssrc(room, sub, room.audio_rewriter@.ssrc)
            == room.slots@[speaker]->0.tracks@[k].ssrc,
{
    let p = room.slots@[speaker]->0;
    law_member_by_name(room, p.user_id@, speaker);
    law_track_by_kind(p.tracks@, TrackKind::Video);
    law_track_by_kind(p.tracks@, TrackKind::Audio);
    assert(of_kind(p.tracks@, TrackKind::Video, k) || !of_kind(p.tracks@, TrackKind::Video, k));
    assert(of_kind(p.tracks@, TrackKind::Audio, k) || !of_kind(p.tracks@, TrackKind::Audio, k));
}

/// Such feedback goes to the address of whoever is heard, once their connection is
/// ready, wherever in the room they and the subscriber sit.
pub proof fn law_ptt_feedback_reaches_speaker(
    room: Room,
    sub: int,
    speaker: int,
    k: int,
    addr: SocketAddress,
)
    requires
        room.wf(),
        room.mode == RoomMode::Ptt,
        heard_at(room, speaker),
        first_of_kind(room.slots@[speaker]->0, TrackKind::Video, k),
        forall|j: int|
            0 <= j < speaker ==> !#[trigger] publishes(
                room.slots@,
                room.slots@[speaker]->0.tracks@[k].ssrc,
                j,
            ),
        room.slots@[speaker]->0.publish.ready(),
        room.slots@[speaker]->0.publish.address == Some(addr),
    ensures
        feedback_target(room, effective_ssrc(room, sub, room.video_rewriter@.ssrc)) == Some(
            (speaker, addr),
        ),
{
    let p = room.slots@[speaker]->0;
    let x = p.tracks@[k].ssrc;
    law_ptt_feedback_is_on_speaker(room, sub, speaker, k);
    law_publisher(room.slots@, x);
    assert(crate::laws::lookup::with_ssrc(p.tracks@, x, k));
    assert(publishes(room.slots@, x, speaker));
}

/// Where nobody was ever heard, or whoever was heard has left or has no such track,
/// feedback on the streams of the room is on nobody's track.
pub proof fn law_ptt_feedback_on_nobody(room: Room, sub: int)
    requires
        room.wf(),
        room.mode == RoomMode::Ptt,
        room.floor@.burst is None && room.floor@.prev_speaker is None,
    ensures
        effective_ssrc(room, sub, room.video_rewriter@.ssrc) == room.video_rewriter@.ssrc,
        effective_ssrc(room, sub, room.audio_rewriter@.ssrc) == room.audio_rewriter@.ssrc,
{
}

/// In a room with simulcast feedback on what is seen of a publisher is on the layer
/// that the subscriber has chosen.
pub proof fn law_layer_feedback_is_on_layer(
    room: Room,
    sub: int,
    publisher: int,
    choice: int,
    track: int,
)
    requires
        room.wf(),
        room.simulcast_enabled,
        taken(room.slots@, sub),
        room.slots@[publisher]->0.simulcast_video_ssrc != 0,
        seen_under(room.slots@, room.slots@[publisher]->0.simulcast_video_ssrc, publisher),
        forall|j: int|
            0 <= j < publisher ==> !#[trigger] seen_under(
                room.slots@,
                room.slots@[publisher]->0.simulcast_video_ssrc,
                j,
            ),
        0 <= choice < room.slots@[sub]->0.subscribe_layers@.len(),
        room.slots@[sub]->0.subscribe_layers@[choice].publisher@
            == room.slots@[publisher]->0.user_id@,
        of_layer(
            room.slots@[publisher]->0.tracks@,
            room.slots@[sub]->0.subscribe_layers@[choice].rid@,
            track,
        ),
        forall|j: int|
            0 <= j < track ==> !#[trigger] of_layer(
                room.slots@[publisher]->0.tracks@,
                room.slots@[sub]->0.subscribe_layers@[choice].rid@,
                j,
            ),
    ensures
        effective_ssrc(room, sub, room.slots@[publisher]->0.simulcast_video_ssrc)
            == room.slots@[publisher]->0.tracks@[track].ssrc,
{
    let x = room.slots@[publisher]->0;
    let y = room.slots@[sub]->0;
    law_seen_publisher(room.slots@, x.simulcast_video_ssrc);
    assert(seen_under(room.slots@, x.simulcast_video_ssrc, publisher));
    law_choice_of_layer(y.subscribe_layers@, x.user_id@);
    assert(y.subscribe_layers@[choice].publisher@ == x.user_id@);
    law_track_by_layer(x.tracks@, y.subscribe_layers@[choice].rid@);
    assert(of_layer(x.tracks@, y.subscribe_layers@[choice].rid@, track));
}

/// All other feedback is on the SSRC that it names.
pub proof fn law_other_feedback_is_plain(room: Room, sub: int, ssrc: u32)
    requires
        !room.simulcast_enabled ==> room.mode != RoomMode::Ptt || (ssrc
            != room.video_rewriter@.ssrc && ssrc != room.audio_rewriter@.ssrc),
        room.simulcast_enabled ==> ssrc == 0 || forall|j: int| !#[trigger]
            seen_under(room.slots@, ssrc, j),
    ensures
        effective_ssrc(room, sub, ssrc) == ssrc,
{
    law_seen_publisher(room.slots@, ssrc);
}

/// Feedback goes to the first publisher of its SSRC, if their connection is ready
/// and their address is known, and otherwise to nobody.
pub proof fn law_feedback_goes_to_publisher(room: Room, ssrc: u32)
    ensures
        match feedback_target(room, ssrc) {
            Some((i, addr)) => {
                &&& publishes(room.slots@, ssrc, i)
                &&& forall|j: int| 0 <= j < i ==> !#[trigger] publishes(room.slots@, ssrc, j)
                &&& room.slots@[i]->0.publish.inbound_srtp@ is Some
                &&& room.slots@[i]->0.publish.address == Some(addr)
            },
            None => forall|i: int|
                #![trigger publishes(room.slots@, ssrc, i)]
                publishes(room.slots@, ssrc, i) && (forall|j: int|
                    0 <= j < i ==> !#[trigger] publishes(room.slots@, ssrc, j)) ==> (
                room.slots@[i]->0.publish.inbound_srtp@ is None
                    || room.slots@[i]->0.publish.address is None),
        },
{
    law_publisher(room.slots@, ssrc);
}

/// The blocks on an SSRC, among the first `n`, one after the other.
pub open spec fn told_on(
    room: Room,
    sub: int,
    buf: Seq<u8>,
    blocks: Seq<RtcpBlockRef>,
    n: int,
    ssrc: u32,
) -> Seq<u8>
    decreases n,
{
    if n <= 0 {
        Seq::empty()
    } else {
        let b = blocks[n - 1];
        let before = told_on(room, sub, buf, blocks, n - 1, ssrc);
        if b.media_ssrc != 0 && effective_ssrc(room, sub, b.media_ssrc) == ssrc {
            before + buf.subrange(b.offset as int, b.offset + b.length)
        } else {
            before
        }
    }
}

/// How many of these blocks are of packet type 206.
pub open spec fn key_frames_asked(
    room: Room,
    sub: int,
    buf: Seq<u8>,
    blocks: Seq<RtcpBlockRef>,
    n: int,
    ssrc: u32,
) -> int
    decreases n,
{
    if n <= 0 {
        0
    } else {
        let b = blocks[n - 1];
        let before = key_frames_asked(room, sub, buf, blocks, n - 1, ssrc);
        if b.media_ssrc != 0 && effective_ssrc(room, sub, b.media_ssrc) == ssrc && buf[b.offset + 1]
            == 206 {
            before + 1
        } else {
            before
        }
    }
}

proof fn lemma_group_at(groups: Seq<Feedback>, ssrc: u32)
    ensures
        match group_at(groups, ssrc) {
            Some(k) => 0 <= k < groups.len() && groups[k].ssrc == ssrc,
            None => forall|k: int| 0 <= k < groups.len() ==> (#[trigger] groups[k]).ssrc != ssrc,
        },
    decreases groups.len(),
{
    if groups.len() > 0 && groups.last().ssrc != ssrc {
        let rest = groups.drop_last();
        lemma_group_at(rest, ssrc);
        assert forall|k: int| 0 <= k < rest.len() implies #[trigger] groups[k] == rest[k] by {}
    }
}

/// Whether no two groups are on one track.
pub open spec fn one_each(groups: Seq<Feedback>) -> bool {
    forall|k: int, m: int|
        0 <= k < m < groups.len() ==> (#[trigger] groups[k]).ssrc != (#[trigger] groups[m]).ssrc
}

/// Whether each group holds all the blocks on its track in the order in which they came.
pub open spec fn each_whole(
    room: Room,
    sub: int,
    buf: Seq<u8>,
    blocks: Seq<RtcpBlockRef>,
    n: int,
    groups: Seq<Feedback>,
) -> bool {
    forall|k: int|
        0 <= k < groups.len() ==> (#[trigger] groups[k]).bytes == told_on(
            room,
            sub,
            buf,
            blocks,
            n,
            groups[k].ssrc,
        ) && groups[k].plis == key_frames_asked(room, sub, buf, blocks, n, groups[k].ssrc)
}

/// Whether there is a group on a track.
pub open spec fn some_on(groups: Seq<Feedback>, ssrc: u32) -> bool {
    exists|k: int| 0 <= k < groups.len() && (#[trigger] groups[k]).ssrc == ssrc
}

/// Whether there is a group on each track that a block is on, and on no other.
pub open spec fn all_there(
    room: Room,
    sub: int,
    buf: Seq<u8>,
    blocks: Seq<RtcpBlockRef>,
    n: int,
    groups: Seq<Feedback>,
) -> bool {
    &&& forall|i: int|
        0 <= i < n && (#[trigger] blocks[i]).media_ssrc != 0 ==> some_on(
            groups,
            effective_ssrc(room, sub, blocks[i].media_ssrc),
        )
    &&& forall|x: u32|
        !#[trigger] some_on(groups, x) ==> told_on(room, sub, buf, blocks, n, x).len() == 0
            && key_frames_asked(room, sub, buf, blocks, n, x) == 0
}

/// Whether there is one group for each track that a block is on, and each holds all
/// the blocks on its track in the order in which they came.
pub open spec fn sorted_by_track(
    room: Room,
    sub: int,
    buf: Seq<u8>,
    blocks: Seq<RtcpBlockRef>,
    n: int,
    groups: Seq<Feedback>,
) -> bool {
    &&& one_each(groups)
    &&& each_whole(room, sub, buf, blocks, n, groups)
    &&& all_there(room, sub, buf, blocks, n, groups)
}

/// Each publisher gets one packet, with all the blocks on their track in the order
/// in which they came.
pub proof fn law_feedback_by_track(
    room: Room,
    sub: int,
    buf: Seq<u8>,
    blocks: Seq<RtcpBlockRef>,
    n: int,
)
    requires
        0 <= n <= blocks.len(),
        forall|i: int|
            0 <= i < blocks.len() ==> (#[trigger] blocks[i]).length >= 4 && blocks[i].offset
                + blocks[i].length <= buf.len(),
    ensures
        sorted_by_track(room, sub, buf, blocks, n, feedback_groups(room, sub, buf, blocks, n)),
    decreases n,
{
    if n > 0 {
        law_feedback_by_track(room, sub, buf, blocks, n - 1);
        let before = feedback_groups(room, sub, buf, blocks, n - 1);
        let b = blocks[n - 1];
        let e = effective_ssrc(room, sub, b.media_ssrc);
        if b.media_ssrc != 0 {
            let bytes = block_bytes(buf, b);
            assert(bytes == buf.subrange(b.offset as int, b.offset + b.length));
            assert(bytes[1] == buf[b.offset + 1]);
            lemma_one_more_block(room, sub, buf, blocks, n, before, e);
        } else {
            lemma_no_more_block(room, sub, buf, blocks, n, before);
        }
    }
}

proof fn lemma_no_more_block(
    room: Room,
    sub: int,
    buf: Seq<u8>,
    blocks: Seq<RtcpBlockRef>,
    n: int,
    before: Seq<Feedback>,
)
    requires
        0 < n <= blocks.len(),
        blocks[n - 1].media_ssrc == 0,
        sorted_by_track(room, sub, buf, blocks, n - 1, before),
    ensures
        sorted_by_track(room, sub, buf, blocks, n, before),
{
    assert forall|x: u32| #[trigger]
        told_on(room, sub, buf, blocks, n, x) == told_on(room, sub, buf, blocks, n - 1, x)
            && key_frames_asked(room, sub, buf, blocks, n, x) == key_frames_asked(
            room,
            sub,
            buf,
            blocks,
            n - 1,
            x,
        ) by {}
    assert(each_whole(room, sub, buf, blocks, n, before));
    assert(all_there(room, sub, buf, blocks, n, before));
}

/// One more block on a track adds its bytes to what is told on that track and on no
/// other.
proof fn lemma_told(
    room: Room,
    sub: int,
    buf: Seq<u8>,
    blocks: Seq<RtcpBlockRef>,
    n: int,
    x: u32,
)
    requires
        0 < n <= blocks.len(),
        blocks[n - 1].media_ssrc != 0,
    ensures
        ({
            let b = blocks[n - 1];
            let e = effective_ssrc(room, sub, b.media_ssrc);
            let here: int = if buf[b.offset + 1] == 206 {
                1
            } else {
                0
            };
            if x == e {
                &&& told_on(room, sub, buf, blocks, n, x) == told_on(
                    room,
                    sub,
                    buf,
                    blocks,
                    n - 1,
                    x,
                ) + block_bytes(buf, b)
                &&& key_frames_asked(room, sub, buf, blocks, n, x) == key_frames_asked(
                    room,
                    sub,
                    buf,
                    blocks,
                    n - 1,
                    x,
                ) + here
            } else {
                &&& told_on(room, sub, buf, blocks, n, x) == told_on(
                    room,
                    sub,
                    buf,
                    blocks,
                    n - 1,
                    x,
                )
                &&& key_frames_asked(room, sub, buf, blocks, n, x) == key_frames_asked(
                    room,
                    sub,
                    buf,
                    blocks,
                    n - 1,
                    x,
                )
            }
        }),
{
}

proof fn lemma_one_more_block(
    room: Room,
    sub: int,
    buf: Seq<u8>,
    blocks: Seq<RtcpBlockRef>,
    n: int,
    before: Seq<Feedback>,
    e: u32,
)
    requires
        0 < n <= blocks.len(),
        blocks[n - 1].media_ssrc != 0,
        e == effective_ssrc(room, sub, blocks[n - 1].media_ssrc),
        block_bytes(buf, blocks[n - 1])[1] == buf[blocks[n - 1].offset + 1],
        sorted_by_track(room, sub, buf, blocks, n - 1, before),
    ensures
        sorted_by_track(
            room,
            sub,
            buf,
            blocks,
            n,
            grouped(before, e, block_bytes(buf, blocks[n - 1])),
        ),
{
    let b = blocks[n - 1];
    let bytes = block_bytes(buf, b);
    let groups = grouped(before, e, bytes);
    lemma_group_at(before, e);
    let place: int = match group_at(before, e) {
        Some(k) => k,
        None => before.len() as int,
    };
    lemma_told(room, sub, buf, blocks, n, e);
    assert(groups[place].ssrc == e);
    assert(groups.len() >= before.len());
    assert forall|k: int| 0 <= k < before.len() implies (#[trigger] groups[k]).ssrc
        == before[k].ssrc by {}
    assert(one_each(groups)) by {
        assert forall|k: int, m: int| 0 <= k < m < groups.len() implies (#[trigger] groups[k]).ssrc
            != (#[trigger] groups[m]).ssrc by {
            if m < before.len() {
                assert(before[k].ssrc != before[m].ssrc);
            } else {
                assert(before[k].ssrc != e);
            }
        }
    }
    if place == before.len() {
        assert(!some_on(before, e)) by {
            if some_on(before, e) {
                let k = choose|k: int| 0 <= k < before.len() && (#[trigger] before[k]).ssrc == e;
                assert(before[k].ssrc != e);
            }
        }
        assert(told_on(room, sub, buf, blocks, n, e) =~= bytes);
    }
    assert(each_whole(room, sub, buf, blocks, n, groups)) by {
        assert forall|k: int| 0 <= k < groups.len() implies (#[trigger] groups[k]).bytes == told_on(
            room,
            sub,
            buf,
            blocks,
            n,
            groups[k].ssrc,
        ) && groups[k].plis == key_frames_asked(room, sub, buf, blocks, n, groups[k].ssrc) by {
            lemma_told(room, sub, buf, blocks, n, groups[k].ssrc);
            if k == place {
                if place < before.len() {
                    assert(before[k].bytes == told_on(room, sub, buf, blocks, n - 1, e));
                }
            } else {
                assert(groups[k] == before[k]);
                if k < place {
                    assert(groups[k].ssrc != groups[place].ssrc);
                } else {
                    assert(groups[place].ssrc != groups[k].ssrc);
                }
            }
        }
    }
    assert(all_there(room, sub, buf, blocks, n, groups)) by {
        assert forall|x: u32| some_on(before, x) || x == e implies #[trigger] some_on(
            groups,
            x,
        ) by {
            if x == e {
                assert(groups[place].ssrc == x);
            } else {
                let k = choose|k: int| 0 <= k < before.len() && (#[trigger] before[k]).ssrc == x;
                assert(groups[k].ssrc == x);
            }
        }
        assert forall|i: int| 0 <= i < n && (#[trigger] blocks[i]).media_ssrc
            != 0 implies some_on(groups, effective_ssrc(room, sub, blocks[i].media_ssrc)) by {
            if i < n - 1 {
                assert(some_on(before, effective_ssrc(room, sub, blocks[i].media_ssrc)));
            }
        }
        assert forall|x: u32| !#[trigger] some_on(groups, x) implies told_on(
            room,
            sub,
            buf,
            blocks,
            n,
            x,
        ).len() == 0 && key_frames_asked(room, sub, buf, blocks, n, x) == 0 by {
            lemma_told(room, sub, buf, blocks, n, x);
            assert(!some_on(before, x));
        }
    }
}

// ---------------------------------------------------------------------------
// Reports of publishers
// ---------------------------------------------------------------------------

/// In a push-to-talk room a report of the speaker is on the stream that their media
/// goes into, and its time runs in that stream as their packets' does: it is as far
/// from a packet there as it was from the packet of theirs.
pub proof fn law_ptt_report_is_in_stream_time(
    room: Room,
    sr: Seq<u8>,
    sender: Participant,
    target: Participant,
    vssrc: u32,
    s: Stream,
    p: Seq<u8>,
)
    requires
        room.mode == RoomMode::Ptt,
        sr_ntp(sr) is Some,
        p.len() >= 12,
        s.speaker is Some,
        room.audio_rewriter@ == after_rewrite(s, p) || room.video_rewriter@ == after_rewrite(s, p),
    ensures
        ({
            let v = sr_for(room, sr, sender, target, vssrc);
            let audio = exists|i: int|
                0 <= i < sender.tracks@.len() && (#[trigger] sender.tracks@[i]).ssrc == be32(sr, 4)
                    && sender.tracks@[i].kind == TrackKind::Audio;
            let matching = if audio {
                room.audio_rewriter@ == after_rewrite(s, p)
            } else {
                room.video_rewriter@ == after_rewrite(s, p)
            };
            &&& v.len() == sr.len()
            &&& audio ==> be32(v, 4) == room.audio_rewriter@.ssrc
            &&& !audio ==> be32(v, 4) == room.video_rewriter@.ssrc
            &&& be32(v, 8) == be32(sr, 8) && be32(v, 12) == be32(sr, 12)
            &&& matching ==> be32(v, 16).wrapping_sub(be32(rewritten(s, p), 4)) == be32(
                sr,
                16,
            ).wrapping_sub(be32(p, 4))
        }),
{
    law_translation_keeps_ntp(sr, sr_translation(room, sr, sender, target, vssrc));
    law_rewrite_touches_header_only(s, p);
}

/// While nobody is heard in a stream, or nothing of a new speaker was sent yet, the
/// time of a report is left as it is.
pub proof fn law_ptt_report_without_burst(
    room: Room,
    sr: Seq<u8>,
    sender: Participant,
    target: Participant,
    vssrc: u32,
)
    requires
        room.mode == RoomMode::Ptt,
        sr_ntp(sr) is Some,
        room.audio_rewriter@.speaker is None || room.audio_rewriter@.awaiting_first,
        room.video_rewriter@.speaker is None || room.video_rewriter@.awaiting_first,
    ensures
        be32(sr_for(room, sr, sender, target, vssrc), 16) == be32(sr, 16),
{
    law_translation_keeps_ntp(sr, sr_translation(room, sr, sender, target, vssrc));
}

/// The counts of a report are what was sent to its target under the SSRC that the
/// report names, not what the publisher sent; 0 where nothing was.
pub proof fn law_report_counts_what_was_sent(
    room: Room,
    sr: Seq<u8>,
    sender: Participant,
    target: Participant,
    vssrc: u32,
    k: int,
)
    requires
        sr_ntp(sr) is Some,
    ensures
        ({
            let v = sr_for(room, sr, sender, target, vssrc);
            let stats = target.send_stats@;
            let ssrc = be32(v, 4);
            &&& 0 <= k < stats.len() && stats[k].ssrc == ssrc && (forall|j: int|
                0 <= j < k ==> (#[trigger] stats[j]).ssrc != ssrc) ==> be32(v, 20)
                == stats[k].packets_sent && be32(v, 24) == stats[k].bytes_sent
            &&& (forall|j: int| 0 <= j < stats.len() ==> (#[trigger] stats[j]).ssrc != ssrc)
                ==> be32(v, 20) == 0 && be32(v, 24) == 0
        }),
{
    law_translation_keeps_ntp(sr, sr_translation(room, sr, sender, target, vssrc));
    let v = sr_for(room, sr, sender, target, vssrc);
    law_sent_by_ssrc(target.send_stats@, be32(v, 4));
}

/// With simulcast, a report on video is on the SSRC under which the video is seen;
/// one on audio, and in a plain conference every one, names its own source.
pub proof fn law_conference_report_source(
    room: Room,
    sr: Seq<u8>,
    sender: Participant,
    target: Participant,
    vssrc: u32,
)
    requires
        room.mode != RoomMode::Ptt,
        sr_ntp(sr) is Some,
    ensures
        ({
            let v = sr_for(room, sr, sender, target, vssrc);
            let video = exists|i: int|
                0 <= i < sender.tracks@.len() && (#[trigger] sender.tracks@[i]).ssrc == be32(sr, 4)
                    && sender.tracks@[i].kind == TrackKind::Video;
            &&& room.simulcast_enabled && video ==> be32(v, 4) == vssrc
            &&& !(room.simulcast_enabled && video) ==> be32(v, 4) == be32(sr, 4)
            &&& be32(v, 8) == be32(sr, 8) && be32(v, 12) == be32(sr, 12)
            &&& be32(v, 16) == be32(sr, 16)
            &&& v.len() == sr.len()
            &&& v.subrange(0, 4) == sr.subrange(0, 4)
            &&& v.subrange(28, v.len() as int) == sr.subrange(28, sr.len() as int)
        }),
{
    law_translation_keeps_ntp(sr, sr_translation(room, sr, sender, target, vssrc));
    let v = sr_for(room, sr, sender, target, vssrc);
    assert(v.subrange(0, 4) =~= sr.subrange(0, 4));
}

/// Where the `k`th of several pieces begins when they follow one another.
pub open spec fn begin_of(v: Seq<Seq<u8>>, k: int) -> int
    decreases k,
{
    if k <= 0 {
        0
    } else {
        begin_of(v, k - 1) + v[k - 1].len()
    }
}

proof fn lemma_begin(v: Seq<Seq<u8>>, k: int, n: int)
    requires
        0 <= k <= n,
    ensures
        0 <= begin_of(v, k) <= begin_of(v, n),
    decreases n,
{
    if k < n {
        lemma_begin(v, k, n - 1);
    } else if n > 0 {
        lemma_begin(v, k - 1, n - 1);
    }
}

/// Feedback blocks that are relayed follow one another unchanged, in their order.
pub proof fn law_blocks_follow(v: Seq<Seq<u8>>, n: int, k: int)
    requires
        0 <= k < n <= v.len(),
    ensures
        in_a_row(v, n).len() == begin_of(v, n),
        0 <= begin_of(v, k) <= begin_of(v, k + 1) <= begin_of(v, n),
        in_a_row(v, n).subrange(begin_of(v, k), begin_of(v, k + 1)) == v[k],
    decreases n,
{
    lemma_begin(v, k, k + 1);
    lemma_begin(v, k + 1, n);
    let all = in_a_row(v, n);
    let rest = in_a_row(v, n - 1);
    if n > 1 {
        law_blocks_follow(v, n - 1, if k < n - 1 { k } else { 0 });
    }
    assert(rest.len() == begin_of(v, n - 1));
    if k < n - 1 {
        lemma_begin(v, k + 1, n - 1);
        assert(all.subrange(begin_of(v, k), begin_of(v, k + 1)) =~= rest.subrange(
            begin_of(v, k),
            begin_of(v, k + 1),
        ));
    } else {
        assert(all.subrange(begin_of(v, k), begin_of(v, k + 1)) =~= v[k]);
    }
}

proof fn lemma_report_len(room: Room, sr: Seq<u8>, sender: Participant, target: Participant, vssrc: u32)
    ensures
        sr_for(room, sr, sender, target, vssrc).len() == sr.len(),
{
    if sr_ntp(sr) is Some {
        law_translation_keeps_ntp(sr, sr_translation(room, sr, sender, target, vssrc));
    }
}

spec fn translated(
    room: Room,
    srs: Seq<Seq<u8>>,
    sender: Participant,
    target: Participant,
    vssrc: u32,
) -> Seq<Seq<u8>> {
    Seq::new(srs.len(), |i: int| sr_for(room, srs[i], sender, target, vssrc))
}

proof fn lemma_translated(
    room: Room,
    srs: Seq<Seq<u8>>,
    sender: Participant,
    target: Participant,
    vssrc: u32,
    n: int,
)
    requires
        0 <= n <= srs.len(),
    ensures
        ({
            let v = translated(room, srs, sender, target, vssrc);
            &&& srs_for(room, srs, sender, target, vssrc, n) == in_a_row(v, n)
            &&& begin_of(v, n) == begin_of(srs, n)
        }),
    decreases n,
{
    if n > 0 {
        lemma_translated(room, srs, sender, target, vssrc, n - 1);
        lemma_report_len(room, srs[n - 1], sender, target, vssrc);
    }
}

/// Reports that are relayed follow one another in their order, each as it is
/// translated for the target, and none changes its length.
pub proof fn law_reports_follow(
    room: Room,
    srs: Seq<Seq<u8>>,
    sender: Participant,
    target: Participant,
    vssrc: u32,
    n: int,
    k: int,
)
    requires
        0 <= k < n <= srs.len(),
    ensures
        srs_for(room, srs, sender, target, vssrc, n).len() == begin_of(srs, n),
        0 <= begin_of(srs, k) <= begin_of(srs, k + 1) <= begin_of(srs, n),
        srs_for(room, srs, sender, target, vssrc, n).subrange(
            begin_of(srs, k),
            begin_of(srs, k + 1),
        ) == sr_for(room, srs[k], sender, target, vssrc),
{
    let v = translated(room, srs, sender, target, vssrc);
    lemma_translated(room, srs, sender, target, vssrc, n);
    lemma_translated(room, srs, sender, target, vssrc, k);
    lemma_translated(room, srs, sender, target, vssrc, k + 1);
    law_blocks_follow(v, n, k);
}

/// What a subscriber is relayed: in a conference first the reports, then the
/// feedback; in a push-to-talk room the feedback alone.
pub proof fn law_reports_before_feedback(
    room: Room,
    srs: Seq<Seq<u8>>,
    feedback: Seq<Seq<u8>>,
    sender: Participant,
    target: Participant,
    vssrc: u32,
)
    ensures
        ({
            let v = publish_rtcp_for(room, srs, feedback, sender, target, vssrc);
            let begin: int = if room.mode == RoomMode::Ptt {
                0
            } else {
                begin_of(srs, srs.len() as int)
            };
            &&& v.len() == begin + begin_of(feedback, feedback.len() as int)
            &&& v.subrange(begin, v.len() as int) == in_a_row(feedback, feedback.len() as int)
            &&& room.mode != RoomMode::Ptt ==> v.subrange(0, begin) == srs_for(
                room,
                srs,
                sender,
                target,
                vssrc,
                srs.len() as int,
            )
        }),
{
    let n = srs.len() as int;
    let m = feedback.len() as int;
    if n > 0 {
        law_reports_follow(room, srs, sender, target, vssrc, n, 0);
    }
    if m > 0 {
        law_blocks_follow(feedback, m, 0);
    }
    lemma_begin(srs, 0, n);
    let v = publish_rtcp_for(room, srs, feedback, sender, target, vssrc);
    let begin: int = if room.mode == RoomMode::Ptt { 0 } else { begin_of(srs, n) };
    assert(v.subrange(begin, v.len() as int) =~= in_a_row(feedback, m));
    if room.mode != RoomMode::Ptt {
        assert(v.subrange(0, begin) =~= srs_for(room, srs, sender, target, vssrc, n));
    }
}

/// A publisher's packet is relayed to all other members whose connection is ready,
/// once each, and to nobody else.
pub proof fn law_reports_reach_others(
    room: Room,
    srs: Seq<Seq<u8>>,
    feedback: Seq<Seq<u8>>,
    sender: Participant,
    vssrc: u32,
    n: int,
)
    requires
        0 <= n <= room.slots@.len() <= usize::MAX,
    ensures
        ({
            let out = publish_rtcp_out(room, srs, feedback, sender, vssrc, n);
            &&& forall|k: int|
                0 <= k < out.len() ==> {
                    let i = (#[trigger] out[k]).0 as int;
                    &&& i < n && room.slots@[i] is Some
                    &&& room.slots@[i]->0.user_id@ != sender.user_id@
                    &&& room.slots@[i]->0.subscribe.inbound_srtp@ is Some
                    &&& out[k].1 == publish_rtcp_for(
                        room,
                        srs,
                        feedback,
                        sender,
                        room.slots@[i]->0,
                        vssrc,
                    )
                }
            &&& forall|k: int, m: int|
                0 <= k < m < out.len() ==> (#[trigger] out[k]).0 < (#[trigger] out[m]).0
            &&& forall|i: int|
                0 <= i < n && (#[trigger] room.slots@[i]) is Some && room.slots@[i]->0.user_id@
                    != sender.user_id@ && room.slots@[i]->0.subscribe.inbound_srtp@ is Some
                    ==> exists|k: int| 0 <= k < out.len() && (#[trigger] out[k]).0 == i
        }),
    decreases n,
{
    if n > 0 {
        law_reports_reach_others(room, srs, feedback, sender, vssrc, n - 1);
        let before = publish_rtcp_out(room, srs, feedback, sender, vssrc, n - 1);
        let out = publish_rtcp_out(room, srs, feedback, sender, vssrc, n);
        assert forall|k: int| 0 <= k < before.len() implies #[trigger] out[k] == before[k] by {}
        assert forall|i: int|
            0 <= i < n && (#[trigger] room.slots@[i]) is Some && room.slots@[i]->0.user_id@
                != sender.user_id@ && room.slots@[i]->0.subscribe.inbound_srtp@ is Some implies exists|
            k: int,
        |
            0 <= k < out.len() && (#[trigger] out[k]).0 == i by {
            if i < n - 1 {
                let k = choose|k: int| 0 <= k < before.len() && (#[trigger] before[k]).0 == i;
                assert(out[k] == before[k]);
            } else {
                assert(out[before.len() as int].0 == i);
            }
        }
    }
}

/// Whether anything is relayed: in a conference where there is a report or feedback;
/// in a push-to-talk room where there is feedback and the sender has the floor.
pub proof fn law_what_is_relayed(room: Room, srs: Seq<Seq<u8>>, feedback: Seq<Seq<u8>>, user: Seq<char>)
    ensures
        room.mode != RoomMode::Ptt ==> publish_rtcp_relayed(room, srs, feedback, user) == (srs.len()
            > 0 || feedback.len() > 0),
        room.mode == RoomMode::Ptt ==> publish_rtcp_relayed(room, srs, feedback, user) == (
        feedback.len() > 0 && room.floor@.burst is Some && room.floor@.burst->0.speaker == user),
{
}

/// A sender report that comes in is noted for the stream that it names and for no
/// other: what the next receiver report says of it is the middle of the report's
/// own NTP time.
pub proof fn law_report_is_noted(
    stats: Seq<Reception>,
    buf: Seq<u8>,
    b: RtcpBlockRef,
    i: int,
    jitter: u32,
    since: (u64, u32),
)
    requires
        28 <= b.length,
        b.offset + b.length <= buf.len(),
        buf[b.offset + 1] == 200,
        0 <= i < stats.len(),
        forall|j: int|
            0 <= j < i ==> (#[trigger] stats[j]).ssrc != be32(buf, b.offset + 4),
    ensures
        ({
            let t = srs_noted(stats, buf, seq![b], 1);
            let at = b.offset as int;
            let ntp = be32(buf, at + 8) * 0x1_0000_0000 + be32(buf, at + 12);
            &&& t.len() == stats.len()
            &&& forall|j: int| 0 <= j < stats.len() && j != i ==> stats[i].ssrc == be32(buf, at + 4)
                ==> #[trigger] t[j] == stats[j]
            &&& stats[i].ssrc == be32(buf, at + 4) ==> report_block(t[i], jitter, since).last_sr
                == ntp / 0x1_0000 % 0x1_0000_0000
            &&& stats[i].ssrc != be32(buf, at + 4) ==> t[i] == stats[i]
        }),
{
    let bytes = block_bytes(buf, b);
    let at = b.offset as int;
    let (ssrc, hi, lo) = (be32(buf, at + 4), be32(buf, at + 8), be32(buf, at + 12));
    assert(sr_ntp(bytes) == Some((ssrc, hi, lo))) by {
        assert(be32(bytes, 4) == ssrc);
        assert(be32(bytes, 8) == hi);
        assert(be32(bytes, 12) == lo);
    }
    law_reception_by_ssrc(stats, ssrc);
    lemma_one_noted(stats, buf, b, ssrc, hi, lo);
    law_last_sr(stats[i], hi, lo, 0, 0, 0, jitter, since);
}

proof fn lemma_one_noted(
    stats: Seq<Reception>,
    buf: Seq<u8>,
    b: RtcpBlockRef,
    ssrc: u32,
    hi: u32,
    lo: u32,
)
    requires
        sr_ntp(block_bytes(buf, b)) == Some((ssrc, hi, lo)),
    ensures
        srs_noted(stats, buf, seq![b], 1) == (match recv_place(stats, ssrc) {
            Some(k) => stats.update(k, after_sr(stats[k], hi, lo)),
            None => stats,
        }),
{
    assert(srs_noted(stats, buf, seq![b], 0) == stats);
    assert(seq![b][0] == b);
}

/// Reports are noted one after the other, so that the last one on a stream counts.
pub proof fn law_reports_are_noted_in_order(
    stats: Seq<Reception>,
    buf: Seq<u8>,
    blocks: Seq<RtcpBlockRef>,
    n: int,
)
    requires
        0 < n <= blocks.len(),
    ensures
        srs_noted(stats, buf, blocks, 0) == stats,
        srs_noted(stats, buf, blocks, n) == srs_noted(
            srs_noted(stats, buf, blocks, n - 1),
            buf,
            seq![blocks[n - 1]],
            1,
        ),
{
    let before = srs_noted(stats, buf, blocks, n - 1);
    assert(srs_noted(before, buf, seq![blocks[n - 1]], 0) == before);
}

} // verus!
