//! Laws of the streams of a push-to-talk room, of packets as they stand on the
//! wire.

use vstd::prelude::*;

use crate::room::ptt_rewriter::{
    after_clear, after_rewrite, after_switch, fresh_stream, law_rewrite_touches_header_only,
    original_seq, rewrite_outcome, rewritten, silence_frame, vp8_keyframe, RewriteResult, Stream,
};
use crate::wire::{be16, be32, lemma_be16_roundtrip, lemma_be32_roundtrip};

verus! {

// ---------------------------------------------------------------------------
// Key frames
// ---------------------------------------------------------------------------

/// Whether bytes are the contributing sources and the header extension that the
/// fixed header `head` announces (RFC 3550).
pub open spec fn rtp_preamble(head: Seq<u8>, csrcs: Seq<u8>, ext: Seq<u8>) -> bool {
    &&& head.len() == 12
    &&& csrcs.len() == 4 * (head[0] & 0x0F)
    &&& if head[0] & 0x10 == 0 {
        ext.len() == 0
    } else {
        ext.len() >= 4 && ext.len() == 4 + 4 * be16(ext, 2)
    }
}

/// Whether bytes are the optional fields that the extension byte `x` of a VP8
/// payload descriptor announces (RFC 7741): a picture identifier of seven bits, or
/// of fifteen where its first bit is set, a byte for the temporal level zero index,
/// and a byte for layer and key index.
pub open spec fn vp8_fields(x: u8, picture: Seq<u8>, tl0: Seq<u8>, layer: Seq<u8>) -> bool {
    &&& if x & 0x80 == 0 {
        picture.len() == 0
    } else {
        (picture.len() == 1 && picture[0] & 0x80 == 0) || (picture.len() == 2 && picture[0] & 0x80
            != 0)
    }
    &&& tl0.len() == (if x & 0x40 != 0 { 1nat } else { 0 })
    &&& layer.len() == (if x & 0x30 != 0 { 1nat } else { 0 })
}

pub proof fn lemma_header_bits(b: u8)
    ensures
        (b & 0x0F) == b % 16,
        (b & 0x10 == 0) == (b / 16 % 2 == 0),
        (b & 0x80 == 0) == (b < 0x80),
        (b & 0x40 != 0) == (b / 64 % 2 == 1),
        (b & 0x30 != 0) == (b / 16 % 4 != 0),
        b & 1 == b % 2,
{
    assert((b & 0x0F) == b % 16 && ((b & 0x10 == 0) <==> (b / 16 % 2 == 0)) && ((b & 0x80 == 0) <==> (b
        < 0x80)) && ((b & 0x40 != 0) <==> (b / 64 % 2 == 1)) && ((b & 0x30 != 0) <==> (b / 16 % 4
        != 0)) && b & 1 == b % 2) by (bit_vector);
}

/// A packet begins a VP8 key frame exactly where its descriptor has the start bit,
/// which is 0x10, and the first byte of the frame behind the descriptor is even.
/// This is for descriptors without extension byte.
pub proof fn law_key_frame_plain(
    head: Seq<u8>,
    csrcs: Seq<u8>,
    ext: Seq<u8>,
    d: u8,
    frame: Seq<u8>,
)
    requires
        rtp_preamble(head, csrcs, ext),
        d & 0x80 == 0,
    ensures
        vp8_keyframe(head + csrcs + ext + seq![d] + frame) == (d & 0x10 != 0 && frame.len() > 0
            && frame[0] & 1 == 0),
{
    let p = head + csrcs + ext + seq![d] + frame;
    let fixed: int = 12 + csrcs.len() as int;
    let at: int = fixed + ext.len();
    lemma_header_bits(head[0]);
    lemma_header_bits(d);
    assert(p[0] == head[0]);
    assert(p[at as int] == d);
    if head[0] & 0x10 != 0 {
        assert(p[fixed + 2] == ext[2] && p[fixed + 3] == ext[3]);
        assert(be16(p, fixed + 2) == be16(ext, 2));
    }
    if frame.len() > 0 {
        assert(p[at + 1] == frame[0]);
        lemma_header_bits(frame[0]);
    }
}

/// The same for descriptors with an extension byte: the frame begins behind all
/// the fields that it announces, whatever they hold.
pub proof fn law_key_frame_extended(
    head: Seq<u8>,
    csrcs: Seq<u8>,
    ext: Seq<u8>,
    d: u8,
    x: u8,
    picture: Seq<u8>,
    tl0: Seq<u8>,
    layer: Seq<u8>,
    frame: Seq<u8>,
)
    requires
        rtp_preamble(head, csrcs, ext),
        d & 0x80 != 0,
        vp8_fields(x, picture, tl0, layer),
    ensures
        vp8_keyframe(head + csrcs + ext + seq![d, x] + picture + tl0 + layer + frame) == (d & 0x10
            != 0 && frame.len() > 0 && frame[0] & 1 == 0),
{
    let p = head + csrcs + ext + seq![d, x] + picture + tl0 + layer + frame;
    let fixed: int = 12 + csrcs.len() as int;
    let at: int = fixed + ext.len();
    lemma_header_bits(head[0]);
    lemma_header_bits(d);
    lemma_header_bits(x);
    assert(p[0] == head[0]);
    assert(p[at as int] == d);
    assert(p[at + 1] == x);
    if head[0] & 0x10 != 0 {
        assert(p[fixed + 2] == ext[2] && p[fixed + 3] == ext[3]);
        assert(be16(p, fixed + 2) == be16(ext, 2));
    }
    if picture.len() > 0 {
        assert(p[at + 2] == picture[0]);
        lemma_header_bits(picture[0]);
    }
    let i = at + 2 + picture.len() + tl0.len() + layer.len();
    if frame.len() > 0 {
        assert(p[i as int] == frame[0]);
        lemma_header_bits(frame[0]);
    }
}

// ---------------------------------------------------------------------------
// One stream of many speakers
// ---------------------------------------------------------------------------

/// The sequence number of an RTP packet.
pub open spec fn number_of(p: Seq<u8>) -> u16 {
    be16(p, 2)
}

/// The timestamp of an RTP packet.
pub open spec fn time_of(p: Seq<u8>) -> u32 {
    be32(p, 4)
}

/// Two packets of one speaker are as far apart in the stream as they were at their
/// sender, in number and in time, whichever comes first; they carry one SSRC.
pub proof fn law_burst_keeps_distances(s: Stream, p: Seq<u8>, q: Seq<u8>)
    requires
        p.len() >= 12,
        q.len() >= 12,
    ensures
        ({
            let a = rewritten(s, p);
            let b = rewritten(after_rewrite(s, p), q);
            &&& number_of(b).wrapping_sub(number_of(a)) == number_of(q).wrapping_sub(number_of(p))
            &&& time_of(b).wrapping_sub(time_of(a)) == time_of(q).wrapping_sub(time_of(p))
            &&& be32(a, 8) == s.ssrc && be32(b, 8) == s.ssrc
        }),
{
    law_rewrite_touches_header_only(s, p);
    law_rewrite_touches_header_only(after_rewrite(s, p), q);
}

/// The number under which a packet was sent leads back to the number that it had
/// at its sender, also after further packets of the burst.
pub proof fn law_sent_number_leads_back(s: Stream, p: Seq<u8>, q: Seq<u8>)
    requires
        p.len() >= 12,
        q.len() >= 12,
    ensures
        ({
            let t = after_rewrite(s, p);
            &&& original_seq(t, number_of(rewritten(s, p))) == number_of(p)
            &&& original_seq(after_rewrite(t, q), number_of(rewritten(s, p))) == number_of(p)
            &&& original_seq(after_rewrite(t, q), number_of(rewritten(t, q))) == number_of(q)
        }),
{
    law_rewrite_touches_header_only(s, p);
    law_rewrite_touches_header_only(after_rewrite(s, p), q);
}

/// When the floor passes from one speaker to the next without a pause, the next
/// packet in the stream has the next number, and its time is one guard gap later.
pub proof fn law_next_speaker_continues(
    s: Stream,
    p: Seq<u8>,
    user: Seq<char>,
    elapsed_ms: u32,
    q: Seq<u8>,
)
    requires
        p.len() >= 12,
        q.len() >= 12,
        s.speaker is Some,
        !s.cleared,
    ensures
        ({
            let a = rewritten(s, p);
            let b = rewritten(after_switch(after_rewrite(s, p), user, elapsed_ms), q);
            &&& number_of(b) == number_of(a).wrapping_add(1)
            &&& time_of(b) == time_of(a).wrapping_add(s.guard_gap)
            &&& be32(b, 8) == be32(a, 8)
        }),
{
    law_rewrite_touches_header_only(s, p);
    law_rewrite_touches_header_only(after_switch(after_rewrite(s, p), user, elapsed_ms), q);
}

/// The larger of two numbers.
pub open spec fn larger(a: int, b: int) -> int {
    if a > b {
        a
    } else {
        b
    }
}

/// After a pause the time of the stream has moved on with the clock: an audio
/// stream by 48 ticks for each millisecond, but at least by the 2880 that its three
/// packets of silence take; a video stream by 90 ticks, but at least by its guard
/// gap. The silence takes three numbers.
pub proof fn law_pause_shows_in_time(
    s: Stream,
    p: Seq<u8>,
    user: Seq<char>,
    elapsed_ms: u32,
    q: Seq<u8>,
)
    requires
        p.len() >= 12,
        q.len() >= 12,
        s.guard_gap <= 2880 || s.video,
        elapsed_ms <= 40_000_000,
        number_of(rewritten(s, p)) != 0 || time_of(rewritten(s, p)) != 0,
    ensures
        ({
            let a = rewritten(s, p);
            let b = rewritten(after_switch(after_clear(after_rewrite(s, p)), user, elapsed_ms), q);
            &&& !s.video ==> number_of(b) == number_of(a).wrapping_add(4) && time_of(b)
                == time_of(a).wrapping_add(larger(2880, elapsed_ms * 48) as u32)
            &&& s.video ==> number_of(b) == number_of(a).wrapping_add(1) && time_of(b) == time_of(
                a,
            ).wrapping_add(larger(s.guard_gap as int, elapsed_ms * 90) as u32)
        }),
{
    let t = after_clear(after_rewrite(s, p));
    law_rewrite_touches_header_only(s, p);
    law_rewrite_touches_header_only(after_switch(t, user, elapsed_ms), q);
}

/// The marker: on audio it is set on the first packet of a speaker, and only there
/// is it changed; on video it never is.
pub proof fn law_marker(s: Stream, p: Seq<u8>)
    requires
        p.len() >= 12,
    ensures
        rewritten(s, p)[1] == (if s.awaiting_first && !s.video { p[1] | 0x80 } else { p[1] }),
{
    let b = p[1];
    assert(b | 0x80 == (b % 0x80 + 0x80) as u8) by (bit_vector);
}

/// Nobody but the speaker passes, and of a new speaker's video nothing before a key
/// frame; what passes opens the way for what follows it.
pub proof fn law_who_passes(s: Stream, user: Seq<char>, elapsed_ms: u32, p: Seq<u8>, keyframe: bool)
    requires
        p.len() >= 12,
    ensures
        ({
            let t = after_switch(s, user, elapsed_ms);
            &&& forall|other: Seq<char>|
                other != user ==> #[trigger] rewrite_outcome(t, p, other, keyframe)
                    == RewriteResult::Skip
            &&& rewrite_outcome(t, p, user, keyframe) == (if s.video && !keyframe {
                RewriteResult::PendingKeyframe
            } else {
                RewriteResult::Rewritten
            })
            &&& rewrite_outcome(after_rewrite(t, p), p, user, false) == RewriteResult::Rewritten
            &&& rewrite_outcome(after_clear(s), p, user, keyframe) == RewriteResult::Skip
        }),
{
}

/// The silence behind an audio burst: packets of the Opus payload type with the
/// three bytes of Opus silence, numbered on from the last packet, 20 ms apart.
pub proof fn law_silence(s: Stream, p: Seq<u8>, i: int)
    requires
        p.len() >= 12,
        0 <= i < 3,
    ensures
        ({
            let a = rewritten(s, p);
            let f = silence_frame(after_rewrite(s, p), i);
            &&& f.len() == 15
            &&& f[0] == 0x80 && f[1] == 111
            &&& number_of(f) == number_of(a).wrapping_add((i + 1) as u16)
            &&& time_of(f) == time_of(a).wrapping_add((960 * (i + 1)) as u32)
            &&& be32(f, 8) == be32(a, 8)
            &&& f.subrange(12, 15) == seq![0xF8u8, 0xFF, 0xFE]
        }),
{
    let t = after_rewrite(s, p);
    law_rewrite_touches_header_only(s, p);
    let f = silence_frame(t, i);
    let n = t.last_seq.wrapping_add((i + 1) as u16);
    let ts = t.last_ts.wrapping_add((960 * (i + 1)) as u32);
    assert(f.subrange(2, 4) =~= crate::wire::be16_bytes(n));
    lemma_be16_roundtrip(f, 2, n);
    assert(f.subrange(4, 8) =~= crate::wire::be32_bytes(ts));
    lemma_be32_roundtrip(f, 4, ts);
    assert(f.subrange(8, 12) =~= crate::wire::be32_bytes(s.ssrc));
    lemma_be32_roundtrip(f, 8, s.ssrc);
    assert(f.subrange(12, 15) =~= seq![0xF8u8, 0xFF, 0xFE]);
}

/// The streams of a new room: audio steps by 960 from speaker to speaker and
/// begins with any packet, video steps by 3000 and begins with a key frame.
pub proof fn law_new_stream(ssrc: u32, gap: u32, video: bool, user: Seq<char>, p: Seq<u8>)
    requires
        p.len() >= 12,
    ensures
        ({
            let s = fresh_stream(ssrc, gap, video);
            &&& s.ssrc == ssrc && s.guard_gap == gap && s.video == video && s.speaker is None
            &&& rewrite_outcome(s, p, user, true) == RewriteResult::Skip
        }),
{
}

/// After a pause so long that the clock's ticks do not fit in 32 bits, the time moves on by
/// the most that fits.
pub proof fn law_long_pause(s: Stream, p: Seq<u8>, user: Seq<char>, elapsed_ms: u32, q: Seq<u8>)
    requires
        p.len() >= 12,
        q.len() >= 12,
        elapsed_ms * (if s.video { 90int } else { 48 }) > u32::MAX,
        number_of(rewritten(s, p)) != 0 || time_of(rewritten(s, p)) != 0,
    ensures
        time_of(rewritten(after_switch(after_clear(after_rewrite(s, p)), user, elapsed_ms), q))
            == time_of(rewritten(s, p)).wrapping_add(u32::MAX),
{
    let t = after_clear(after_rewrite(s, p));
    law_rewrite_touches_header_only(s, p);
    law_rewrite_touches_header_only(after_switch(t, user, elapsed_ms), q);
}

/// A packet that is cut off before its frame begins no key frame, wherever the cut is.
pub proof fn law_key_frame_cut_off(
    head: Seq<u8>,
    csrcs: Seq<u8>,
    ext: Seq<u8>,
    d: u8,
    x: u8,
    picture: Seq<u8>,
    tl0: Seq<u8>,
    layer: Seq<u8>,
    n: int,
)
    requires
        rtp_preamble(head, csrcs, ext),
        d & 0x80 != 0,
        vp8_fields(x, picture, tl0, layer),
        12 + csrcs.len() + ext.len() <= n <= 12 + csrcs.len() + ext.len() + 2 + picture.len()
            + tl0.len() + layer.len(),
    ensures
        !vp8_keyframe((head + csrcs + ext + seq![d, x] + picture + tl0 + layer).take(n)),
{
    let full = head + csrcs + ext + seq![d, x] + picture + tl0 + layer;
    let p = full.take(n);
    let fixed: int = 12 + csrcs.len() as int;
    let at: int = fixed + ext.len();
    lemma_header_bits(head[0]);
    lemma_header_bits(d);
    lemma_header_bits(x);
    assert(p[0] == head[0]);
    if head[0] & 0x10 != 0 {
        assert(p[fixed + 2] == ext[2] && p[fixed + 3] == ext[3]);
        assert(be16(p, fixed + 2) == be16(ext, 2));
    }
    if n > at {
        assert(p[at] == d);
        if n > at + 1 {
            assert(p[at + 1] == x);
            if picture.len() > 0 && n > at + 2 {
                lemma_header_bits(picture[0]);
                assert(p[at + 2] == picture[0]);
            }
        }
    }
}

} // verus!
