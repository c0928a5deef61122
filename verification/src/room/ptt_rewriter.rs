//! Rewriting of RTP in push-to-talk rooms: the packets of changing speakers
//! become one continuous stream with one SSRC.
//!
//! Sequence number and timestamp of a packet are shifted by the distance between
//! the first packet of the talk burst and the end of the stream so far:
//!
//! ```text
//! virtual_seq = original_seq - origin_base_seq + virtual_base_seq
//! virtual_ts  = original_ts  - origin_base_ts  + virtual_base_ts
//! ```

use vstd::prelude::*;

use crate::clock::{elapsed_ms, instant_now};
use crate::config;
use crate::random::random_u32;
use crate::text::{owned, text_eq};
use crate::wire::{
    be16, be16_bytes, be32, be32_bytes, lemma_be16_roundtrip, lemma_be32_roundtrip, push_u16,
    push_u32, read_u16, read_u32,
};

verus! {

/// Timestamp step of an audio stream between speakers: 20 ms at 48 kHz.
pub const TS_GUARD_GAP_AUDIO: u32 = 960;

/// Timestamp step of a video stream between speakers: about 33 ms at 90 kHz.
pub const TS_GUARD_GAP_VIDEO: u32 = 3000;

/// What became of a packet.
#[derive(Debug, Clone, Copy, PartialEq, Eq, Structural)]
pub enum RewriteResult {
    /// Rewritten, to be sent on.
    Rewritten,
    /// Dropped: the stream waits for a key frame.
    PendingKeyframe,
    /// Not of this stream: the sender is not the speaker.
    Skip,
}

/// The rewriter of one stream of a room.
#[derive(Debug)]
pub struct PttRewriter {
    virtual_ssrc: u32,
    ts_guard_gap: u32,
    require_keyframe: bool,
    speaker: Option<String>,
    origin_base_seq: u16,
    origin_base_ts: u32,
    virtual_base_seq: u16,
    virtual_base_ts: u32,
    last_virtual_seq: u16,
    last_virtual_ts: u32,
    awaiting_first_packet: bool,
    pending_keyframe: bool,
    cleared_at: Option<std::time::Instant>,
    silence_sent: bool,
}

/// The state of a stream.
pub struct Stream {
    /// The SSRC that all packets of the stream carry.
    pub ssrc: u32,
    /// The least timestamp step between speakers.
    pub guard_gap: u32,
    /// Whether a talk burst begins with a key frame.
    pub video: bool,
    pub speaker: Option<Seq<char>>,
    /// Sequence number and timestamp of the first packet of the talk burst.
    pub origin_seq: u16,
    pub origin_ts: u32,
    /// Where the talk burst begins in the stream.
    pub base_seq: u16,
    pub base_ts: u32,
    /// Where the stream stands.
    pub last_seq: u16,
    pub last_ts: u32,
    pub awaiting_first: bool,
    pub pending_keyframe: bool,
    /// Whether the stream has been idle since the last speaker.
    pub cleared: bool,
    /// Whether the last speaker was followed by silence.
    pub silenced: bool,
}

impl View for PttRewriter {
    type V = Stream;

    closed spec fn view(&self) -> Stream {
        Stream {
            ssrc: self.virtual_ssrc,
            guard_gap: self.ts_guard_gap,
            video: self.require_keyframe,
            speaker: match self.speaker {
                Some(s) => Some(s@),
                None => None,
            },
            origin_seq: self.origin_base_seq,
            origin_ts: self.origin_base_ts,
            base_seq: self.virtual_base_seq,
            base_ts: self.virtual_base_ts,
            last_seq: self.last_virtual_seq,
            last_ts: self.last_virtual_ts,
            awaiting_first: self.awaiting_first_packet,
            pending_keyframe: self.pending_keyframe,
            cleared: self.cleared_at is Some,
            silenced: self.silence_sent,
        }
    }
}

/// A stream that nobody has spoken on yet.
pub open spec fn fresh_stream(ssrc: u32, guard_gap: u32, video: bool) -> Stream {
    Stream {
        ssrc,
        guard_gap,
        video,
        speaker: None,
        origin_seq: 0,
        origin_ts: 0,
        base_seq: 0,
        base_ts: 0,
        last_seq: 0,
        last_ts: 0,
        awaiting_first: false,
        pending_keyframe: false,
        cleared: false,
        silenced: false,
    }
}

/// A stream waits for a key frame exactly where it carries video and waits for
/// the first packet of its speaker; it ends in silence only while nobody speaks.
pub open spec fn stream_valid(s: Stream) -> bool {
    &&& s.pending_keyframe == (s.video && s.awaiting_first)
    &&& s.silenced ==> s.cleared && !s.video
    &&& s.cleared ==> s.speaker is None
}

/// The timestamp step to the next speaker: the idle time in clock ticks, and at
/// least the guard gap.
pub open spec fn idle_gap(s: Stream, elapsed_ms: u32) -> u32 {
    let per_ms: int = if s.video { 90 } else { 48 };
    let ticks = if elapsed_ms * per_ms > u32::MAX { u32::MAX as int } else { elapsed_ms * per_ms };
    if s.cleared && ticks > s.guard_gap {
        ticks as u32
    } else {
        s.guard_gap
    }
}

/// Whether a stream has carried anything: its speaker has been heard, or it has
/// left the place where a stream begins.
pub open spec fn has_carried(s: Stream) -> bool {
    (s.speaker is Some && !s.awaiting_first) || s.last_seq != 0 || s.last_ts != 0
}

/// The step that is left for the next speaker. Behind a packet of the last speaker
/// it is the whole step. The silence behind an audio burst has already taken a part
/// of it, and an audio stream that has carried nothing begins as if behind silence.
pub open spec fn open_gap(s: Stream, elapsed_ms: u32) -> u32 {
    let gap = idle_gap(s, elapsed_ms);
    if s.video || (has_carried(s) && !(s.cleared && s.silenced)) {
        gap
    } else if gap > 3 * TS_GUARD_GAP_AUDIO {
        (gap - 3 * TS_GUARD_GAP_AUDIO) as u32
    } else {
        0
    }
}

/// `user` speaks from now on.
pub open spec fn after_switch(s: Stream, user: Seq<char>, elapsed_ms: u32) -> Stream {
    Stream {
        speaker: Some(user),
        base_seq: s.last_seq.wrapping_add(1),
        base_ts: s.last_ts.wrapping_add(open_gap(s, elapsed_ms)),
        awaiting_first: true,
        pending_keyframe: s.video,
        cleared: false,
        silenced: false,
        ..s
    }
}

/// Whether silence is sent when the speaker of `s` ends: on audio that has
/// carried something.
pub open spec fn flushes(s: Stream) -> bool {
    !s.video && !(s.last_seq == 0 && s.last_ts == 0)
}

/// Nobody speaks from now on.
pub open spec fn after_clear(s: Stream) -> Stream {
    let idle = Stream {
        speaker: None,
        awaiting_first: false,
        pending_keyframe: false,
        cleared: true,
        silenced: flushes(s),
        ..s
    };
    if flushes(s) {
        Stream {
            last_seq: s.last_seq.wrapping_add(3),
            last_ts: s.last_ts.wrapping_add((3 * TS_GUARD_GAP_AUDIO) as u32),
            ..idle
        }
    } else {
        idle
    }
}

/// The `i`th packet of silence, from 0, behind the last packet of a stream.
pub open spec fn silence_frame(s: Stream, i: int) -> Seq<u8> {
    seq![0x80u8, config::OPUS_PAYLOAD_TYPE] + be16_bytes(s.last_seq.wrapping_add((i + 1) as u16)) + be32_bytes(
        s.last_ts.wrapping_add((TS_GUARD_GAP_AUDIO * (i + 1)) as u32),
    ) + be32_bytes(s.ssrc) + seq![0xF8u8, 0xFF, 0xFE]
}

/// An RTP packet with other sequence number, timestamp and SSRC.
pub open spec fn renumbered(p: Seq<u8>, seq: u16, ts: u32, ssrc: u32) -> Seq<u8> {
    p.subrange(0, 2) + be16_bytes(seq) + be32_bytes(ts) + be32_bytes(ssrc) + p.subrange(
        12,
        p.len() as int,
    )
}

/// An RTP packet with the marker set.
pub open spec fn marked(p: Seq<u8>) -> Seq<u8> {
    p.update(1, (p[1] % 0x80 + 0x80) as u8)
}

/// What becomes of a packet.
pub open spec fn rewrite_outcome(s: Stream, p: Seq<u8>, sender: Seq<char>, keyframe: bool) -> RewriteResult {
    if p.len() < 12 || s.speaker != Some(sender) {
        RewriteResult::Skip
    } else if s.pending_keyframe && !keyframe {
        RewriteResult::PendingKeyframe
    } else {
        RewriteResult::Rewritten
    }
}

/// Where the talk burst of `s` began, seen from packet `p`.
pub open spec fn burst_origin(s: Stream, p: Seq<u8>) -> (u16, u32) {
    if s.awaiting_first {
        (be16(p, 2), be32(p, 4))
    } else {
        (s.origin_seq, s.origin_ts)
    }
}

pub open spec fn virtual_seq(s: Stream, p: Seq<u8>) -> u16 {
    be16(p, 2).wrapping_sub(burst_origin(s, p).0).wrapping_add(s.base_seq)
}

pub open spec fn virtual_ts(s: Stream, p: Seq<u8>) -> u32 {
    be32(p, 4).wrapping_sub(burst_origin(s, p).1).wrapping_add(s.base_ts)
}

/// The packet as it is sent on.
pub open spec fn rewritten(s: Stream, p: Seq<u8>) -> Seq<u8> {
    let q = renumbered(p, virtual_seq(s, p), virtual_ts(s, p), s.ssrc);
    if s.awaiting_first && !s.video {
        marked(q)
    } else {
        q
    }
}

/// The stream after a packet was sent on.
pub open spec fn after_rewrite(s: Stream, p: Seq<u8>) -> Stream {
    Stream {
        origin_seq: burst_origin(s, p).0,
        origin_ts: burst_origin(s, p).1,
        last_seq: virtual_seq(s, p),
        last_ts: virtual_ts(s, p),
        awaiting_first: false,
        pending_keyframe: false,
        ..s
    }
}

/// The sequence number that a packet of the stream had at its sender.
pub open spec fn original_seq(s: Stream, v: u16) -> u16 {
    v.wrapping_sub(s.base_seq).wrapping_add(s.origin_seq)
}

/// Exchanges sequence number, timestamp and SSRC of a packet.
pub fn renumber(p: &mut [u8], seq: u16, ts: u32, ssrc: u32)
    requires
        old(p)@.len() >= 12,
    ensures
        final(p)@ == renumbered(old(p)@, seq, ts, ssrc),
{
    p[2] = (seq / 0x100) as u8;
    p[3] = (seq % 0x100) as u8;
    p[4] = (ts / 0x100_0000) as u8;
    p[5] = (ts / 0x1_0000 % 0x100) as u8;
    p[6] = (ts / 0x100 % 0x100) as u8;
    p[7] = (ts % 0x100) as u8;
    p[8] = (ssrc / 0x100_0000) as u8;
    p[9] = (ssrc / 0x1_0000 % 0x100) as u8;
    p[10] = (ssrc / 0x100 % 0x100) as u8;
    p[11] = (ssrc % 0x100) as u8;
    assert(p@ =~= renumbered(old(p)@, seq, ts, ssrc));
}

impl PttRewriter {
    pub open spec fn wf(&self) -> bool {
        stream_valid(self@)
    }

    /// A rewriter for an audio stream with the given SSRC.
    pub fn audio_with_ssrc(virtual_ssrc: u32) -> (r: Self)
        ensures
            r@ == fresh_stream(virtual_ssrc, TS_GUARD_GAP_AUDIO, false),
            r.wf(),
    {
        PttRewriter::with_ssrc(virtual_ssrc, TS_GUARD_GAP_AUDIO, false)
    }

    /// A rewriter for a video stream with the given SSRC.
    pub fn video_with_ssrc(virtual_ssrc: u32) -> (r: Self)
        ensures
            r@ == fresh_stream(virtual_ssrc, TS_GUARD_GAP_VIDEO, true),
            r.wf(),
    {
        PttRewriter::with_ssrc(virtual_ssrc, TS_GUARD_GAP_VIDEO, true)
    }

    fn with_ssrc(virtual_ssrc: u32, ts_guard_gap: u32, require_keyframe: bool) -> (r: Self)
        ensures
            r@ == fresh_stream(virtual_ssrc, ts_guard_gap, require_keyframe),
    {
        PttRewriter {
            virtual_ssrc,
            ts_guard_gap,
            require_keyframe,
            speaker: None,
            origin_base_seq: 0,
            origin_base_ts: 0,
            virtual_base_seq: 0,
            virtual_base_ts: 0,
            last_virtual_seq: 0,
            last_virtual_ts: 0,
            awaiting_first_packet: false,
            pending_keyframe: false,
            cleared_at: None,
            silence_sent: false,
        }
    }

    /// A rewriter for an audio stream with a random SSRC, or nothing where the
    /// system has no random numbers to give.
    pub fn new_audio() -> (r: Option<Self>)
        ensures
            r matches Some(x) ==> x@ == fresh_stream(x@.ssrc, TS_GUARD_GAP_AUDIO, false) && x.wf(),
    {
        match random_u32() {
            Some(ssrc) => Some(PttRewriter::audio_with_ssrc(ssrc)),
            None => None,
        }
    }

    /// A rewriter for a video stream with a random SSRC, or nothing where the
    /// system has no random numbers to give.
    pub fn new_video() -> (r: Option<Self>)
        ensures
            r matches Some(x) ==> x@ == fresh_stream(x@.ssrc, TS_GUARD_GAP_VIDEO, true) && x.wf(),
    {
        match random_u32() {
            Some(ssrc) => Some(PttRewriter::video_with_ssrc(ssrc)),
            None => None,
        }
    }

    pub fn virtual_ssrc(&self) -> (r: u32)
        ensures
            r == self@.ssrc,
    {
        self.virtual_ssrc
    }

    /// `switch_speaker` after the stream has been idle for a given time.
    pub fn switch_speaker_after(&mut self, user_id: &str, elapsed_ms: u32)
        ensures
            final(self)@ == after_switch(old(self)@, user_id@, elapsed_ms),
            final(self).wf(),
    {
        let per_ms: u64 = if self.require_keyframe { 90 } else { 48 };
        let mut gap: u32 = self.ts_guard_gap;
        if self.cleared_at.is_some() {
            let ticks: u64 = elapsed_ms as u64 * per_ms;
            let ticks: u32 = if ticks > u32::MAX as u64 { u32::MAX } else { ticks as u32 };
            if ticks > gap {
                gap = ticks;
            }
        }
        let heard: bool = self.speaker.is_some() && !self.awaiting_first_packet;
        let carried: bool = heard || self.last_virtual_seq != 0 || self.last_virtual_ts != 0;
        let silenced: bool = self.cleared_at.is_some() && self.silence_sent;
        if !self.require_keyframe && (!carried || silenced) {
            // The silence behind the last speaker has already taken three steps.
            gap = gap.saturating_sub(3 * TS_GUARD_GAP_AUDIO);
        }
        self.virtual_base_ts = self.last_virtual_ts.wrapping_add(gap);
        self.virtual_base_seq = self.last_virtual_seq.wrapping_add(1);
        self.cleared_at = None;
        self.silence_sent = false;
        self.speaker = Some(owned(user_id));
        self.awaiting_first_packet = true;
        self.pending_keyframe = self.require_keyframe;
    }

    /// How long the stream has been idle, in milliseconds; 0 while somebody
    /// speaks.
    pub fn idle_ms(&self) -> (r: u32)
        ensures
            !self@.cleared ==> r == 0,
    {
        match &self.cleared_at {
            Some(since) => elapsed_ms(since),
            None => 0,
        }
    }

    /// The floor was granted to `user_id`.
    pub fn switch_speaker(&mut self, user_id: &str)
        ensures
            exists|elapsed: u32|
                (!old(self)@.cleared ==> elapsed == 0) && final(self)@ == #[trigger] after_switch(
                    old(self)@,
                    user_id@,
                    elapsed,
                ),
            final(self).wf(),
    {
        let elapsed: u32 = self.idle_ms();
        self.switch_speaker_after(user_id, elapsed);
    }

    /// The floor was released or revoked. An audio stream that has carried
    /// something ends with three packets of silence, which are returned.
    pub fn clear_speaker(&mut self) -> (r: Option<Vec<Vec<u8>>>)
        ensures
            final(self)@ == after_clear(old(self)@),
            final(self).wf(),
            r is Some <==> flushes(old(self)@),
            r matches Some(frames) ==> frames@.len() == 3 && forall|i: int|
                0 <= i < 3 ==> (#[trigger] frames@[i])@ == silence_frame(old(self)@, i),
    {
        self.speaker = None;
        self.awaiting_first_packet = false;
        self.pending_keyframe = false;
        self.cleared_at = Some(instant_now());
        self.silence_sent = false;
        if self.require_keyframe {
            return None;
        }
        if self.last_virtual_seq == 0 && self.last_virtual_ts == 0 {
            return None;
        }
        let mut frames: Vec<Vec<u8>> = Vec::new();
        let mut i: u16 = 0;
        while i < 3
            invariant
                i <= 3,
                frames@.len() == i,
                self@.last_seq == old(self)@.last_seq,
                self@.last_ts == old(self)@.last_ts,
                self@.ssrc == old(self)@.ssrc,
                forall|k: int|
                    0 <= k < i ==> (#[trigger] frames@[k])@ == silence_frame(old(self)@, k),
            decreases 3 - i,
        {
            let mut pkt: Vec<u8> = Vec::new();
            pkt.push(0x80);
            pkt.push(config::OPUS_PAYLOAD_TYPE);
            push_u16(&mut pkt, self.last_virtual_seq.wrapping_add(i + 1));
            push_u32(
                &mut pkt,
                self.last_virtual_ts.wrapping_add(TS_GUARD_GAP_AUDIO * (i as u32 + 1)),
            );
            push_u32(&mut pkt, self.virtual_ssrc);
            pkt.push(0xF8);
            pkt.push(0xFF);
            pkt.push(0xFE);
            assert(pkt@ =~= silence_frame(old(self)@, i as int));
            frames.push(pkt);
            i += 1;
        }
        self.last_virtual_seq = self.last_virtual_seq.wrapping_add(3);
        self.last_virtual_ts = self.last_virtual_ts.wrapping_add(3 * TS_GUARD_GAP_AUDIO);
        self.silence_sent = true;
        Some(frames)
    }

    /// Makes a packet of the speaker a packet of the stream, in place.
    /// `is_keyframe` says whether a video packet begins a key frame.
    pub fn rewrite(&mut self, plaintext: &mut [u8], sender_user_id: &str, is_keyframe: bool) -> (r:
        RewriteResult)
        ensures
            r == rewrite_outcome(old(self)@, old(plaintext)@, sender_user_id@, is_keyframe),
            r == RewriteResult::Rewritten ==> final(plaintext)@ == rewritten(old(self)@, old(plaintext)@)
                && final(self)@ == after_rewrite(old(self)@, old(plaintext)@),
            r != RewriteResult::Rewritten ==> final(plaintext)@ == old(plaintext)@ && final(self)@
                == old(self)@,
            old(self).wf() ==> final(self).wf(),
    {
        if plaintext.len() < 12 {
            return RewriteResult::Skip;
        }
        match &self.speaker {
            Some(speaker) => {
                if !text_eq(speaker.as_str(), sender_user_id) {
                    return RewriteResult::Skip;
                }
            },
            None => {
                return RewriteResult::Skip;
            },
        }
        if self.pending_keyframe {
            if !is_keyframe {
                return RewriteResult::PendingKeyframe;
            }
            self.pending_keyframe = false;
        }
        let orig_seq: u16 = read_u16(plaintext, 2);
        let orig_ts: u32 = read_u32(plaintext, 4);
        let is_first: bool = self.awaiting_first_packet;
        if is_first {
            self.origin_base_seq = orig_seq;
            self.origin_base_ts = orig_ts;
            self.awaiting_first_packet = false;
        }
        let seq: u16 = orig_seq.wrapping_sub(self.origin_base_seq).wrapping_add(
            self.virtual_base_seq,
        );
        let ts: u32 = orig_ts.wrapping_sub(self.origin_base_ts).wrapping_add(self.virtual_base_ts);
        self.last_virtual_seq = seq;
        self.last_virtual_ts = ts;
        renumber(plaintext, seq, ts, self.virtual_ssrc);
        if is_first && !self.require_keyframe {
            plaintext[1] = plaintext[1] % 0x80 + 0x80;
        }
        RewriteResult::Rewritten
    }

    /// The place of a sender's timestamp in the stream, once the talk burst has
    /// begun.
    pub fn translate_rtp_ts(&self, original_rtp_ts: u32) -> (r: Option<u32>)
        ensures
            r == (if self@.speaker is None || self@.awaiting_first {
                None
            } else {
                Some(original_rtp_ts.wrapping_sub(self@.origin_ts).wrapping_add(self@.base_ts))
            }),
    {
        if self.speaker.is_none() || self.awaiting_first_packet {
            return None;
        }
        Some(original_rtp_ts.wrapping_sub(self.origin_base_ts).wrapping_add(self.virtual_base_ts))
    }

    /// The sequence number that a packet of the stream had at its sender.
    pub fn reverse_seq(&self, virtual_seq: u16) -> (r: u16)
        ensures
            r == original_seq(self@, virtual_seq),
    {
        virtual_seq.wrapping_sub(self.virtual_base_seq).wrapping_add(self.origin_base_seq)
    }

    pub fn is_current_speaker(&self, user_id: &str) -> (r: bool)
        ensures
            r == (self@.speaker == Some(user_id@)),
    {
        match &self.speaker {
            Some(speaker) => text_eq(speaker.as_str(), user_id),
            None => false,
        }
    }
}

// ---------------------------------------------------------------------------
// Laws
// ---------------------------------------------------------------------------

/// A negative acknowledgement finds its packet: for a packet that was sent on,
/// the sequence number it was given maps back to the one that it had.
pub proof fn law_reverse_undoes_rewrite(s: Stream, p: Seq<u8>)
    ensures
        original_seq(after_rewrite(s, p), virtual_seq(s, p)) == be16(p, 2),
{
}

/// Within a talk burst the distance between two packets stays what it was at
/// the sender, in sequence numbers and in timestamps, in whatever order they
/// arrive.
pub proof fn law_rewrite_keeps_distances(s: Stream, p: Seq<u8>, q: Seq<u8>)
    ensures
        ({
            let t = after_rewrite(s, p);
            &&& virtual_seq(t, q).wrapping_sub(virtual_seq(s, p)) == be16(q, 2).wrapping_sub(
                be16(p, 2),
            )
            &&& virtual_ts(t, q).wrapping_sub(virtual_ts(s, p)) == be32(q, 4).wrapping_sub(
                be32(p, 4),
            )
        }),
{
}

/// Whatever happens to a stream, it waits for a key frame exactly where it carries
/// video and waits for the first packet of its speaker, and ends in silence only
/// while nobody speaks.
pub proof fn law_stream_stays_valid(
    s: Stream,
    ssrc: u32,
    guard_gap: u32,
    user: Seq<char>,
    elapsed_ms: u32,
    p: Seq<u8>,
)
    requires
        stream_valid(s),
    ensures
        stream_valid(fresh_stream(ssrc, guard_gap, s.video)),
        stream_valid(after_switch(s, user, elapsed_ms)),
        stream_valid(after_clear(s)),
        stream_valid(after_rewrite(s, p)),
{
}

/// A speaker who follows another at once, with no silence between them, begins one
/// guard gap behind the last packet: 960 on the audio of a room, 3000 on its
/// video.
pub proof fn law_change_keeps_guard_gap(s: Stream, user: Seq<char>, elapsed_ms: u32, p: Seq<u8>)
    requires
        !s.cleared,
        has_carried(s),
    ensures
        virtual_ts(after_switch(s, user, elapsed_ms), p) == s.last_ts.wrapping_add(s.guard_gap),
        !after_rewrite(after_switch(s, user, elapsed_ms), p).cleared,
        has_carried(after_rewrite(after_switch(s, user, elapsed_ms), p)),
{
}

/// An audio stream begins at timestamp 0 and sequence number 1, a video stream one
/// guard gap later.
pub proof fn law_stream_begins(ssrc: u32, video: bool, user: Seq<char>, elapsed_ms: u32, p: Seq<u8>)
    ensures
        ({
            let gap = if video { TS_GUARD_GAP_VIDEO } else { TS_GUARD_GAP_AUDIO };
            let s = after_switch(fresh_stream(ssrc, gap, video), user, elapsed_ms);
            &&& virtual_seq(s, p) == 1
            &&& virtual_ts(s, p) == (if video { TS_GUARD_GAP_VIDEO } else { 0 })
        }),
{
}

/// The stream has no gap between speakers: the first packet of a new speaker
/// carries the sequence number after the last one that was sent.
pub proof fn law_switch_is_seamless(s: Stream, user: Seq<char>, elapsed_ms: u32, p: Seq<u8>)
    ensures
        virtual_seq(after_switch(s, user, elapsed_ms), p) == s.last_seq.wrapping_add(1),
        virtual_ts(after_switch(s, user, elapsed_ms), p) == s.last_ts.wrapping_add(
            open_gap(s, elapsed_ms),
        ),
{
}

/// The silence at the end of a burst continues the stream, and so does the next
/// speaker behind it: four consecutive sequence numbers under one SSRC.
pub proof fn law_silence_is_seamless(s: Stream, user: Seq<char>, elapsed_ms: u32, p: Seq<u8>, i: int)
    requires
        flushes(s),
        0 <= i < 3,
    ensures
        be16(silence_frame(s, i), 2) == s.last_seq.wrapping_add((i + 1) as u16),
        be32(silence_frame(s, i), 4) == s.last_ts.wrapping_add((960 * (i + 1)) as u32),
        be32(silence_frame(s, i), 8) == s.ssrc,
        virtual_seq(after_switch(after_clear(s), user, elapsed_ms), p) == s.last_seq.wrapping_add(4),
{
    let f = silence_frame(s, i);
    assert(f.subrange(2, 4) =~= be16_bytes(s.last_seq.wrapping_add((i + 1) as u16)));
    lemma_be16_roundtrip(f, 2, s.last_seq.wrapping_add((i + 1) as u16));
    assert(f.subrange(4, 8) =~= be32_bytes(s.last_ts.wrapping_add((960 * (i + 1)) as u32)));
    lemma_be32_roundtrip(f, 4, s.last_ts.wrapping_add((960 * (i + 1)) as u32));
    assert(f.subrange(8, 12) =~= be32_bytes(s.ssrc));
    lemma_be32_roundtrip(f, 8, s.ssrc);
}

/// A packet that is sent on carries the SSRC of the stream and the sequence
/// number and timestamp computed for it; its version, its payload type and all
/// that follows the fixed header are as they were.
pub proof fn law_rewrite_touches_header_only(s: Stream, p: Seq<u8>)
    requires
        p.len() >= 12,
    ensures
        ({
            let q = rewritten(s, p);
            &&& q.len() == p.len()
            &&& q[0] == p[0]
            &&& q[1] % 0x80 == p[1] % 0x80
            &&& be16(q, 2) == virtual_seq(s, p)
            &&& be32(q, 4) == virtual_ts(s, p)
            &&& be32(q, 8) == s.ssrc
            &&& q.subrange(12, q.len() as int) == p.subrange(12, p.len() as int)
        }),
{
    let r = renumbered(p, virtual_seq(s, p), virtual_ts(s, p), s.ssrc);
    let q = rewritten(s, p);
    assert(q.subrange(2, 4) =~= be16_bytes(virtual_seq(s, p)));
    lemma_be16_roundtrip(q, 2, virtual_seq(s, p));
    assert(q.subrange(4, 8) =~= be32_bytes(virtual_ts(s, p)));
    lemma_be32_roundtrip(q, 4, virtual_ts(s, p));
    assert(q.subrange(8, 12) =~= be32_bytes(s.ssrc));
    lemma_be32_roundtrip(q, 8, s.ssrc);
    assert(q.subrange(12, q.len() as int) =~= p.subrange(12, p.len() as int));
}

/// Only the speaker is heard, and on video nothing of a new speaker before the
/// first key frame.
pub proof fn law_only_speaker_passes(s: Stream, p: Seq<u8>, sender: Seq<char>, keyframe: bool)
    ensures
        rewrite_outcome(s, p, sender, keyframe) == RewriteResult::Rewritten ==> s.speaker == Some(
            sender,
        ) && (s.pending_keyframe ==> keyframe),
        forall|user: Seq<char>, elapsed: u32|
            s.video && !keyframe ==> rewrite_outcome(
                #[trigger] after_switch(s, user, elapsed),
                p,
                sender,
                keyframe,
            ) != RewriteResult::Rewritten,
        rewrite_outcome(after_clear(s), p, sender, keyframe) == RewriteResult::Skip,
{
}

// ---------------------------------------------------------------------------
// VP8
// ---------------------------------------------------------------------------

/// What can be seen of a VP8 packet.
#[derive(Debug, Clone, Copy)]
pub struct Vp8Diag {
    pub is_keyframe: bool,
    /// The first bytes of the payload, zero where it has fewer than four.
    pub pd_bytes: [u8; 4],
    /// The first byte of the VP8 frame.
    pub frame_byte: Option<u8>,
    /// Whether the packet begins a partition.
    pub s_bit: bool,
    pub payload_offset: usize,
    pub payload_len: usize,
}

/// Where the payload of an RTP packet begins, behind contributing sources and
/// header extension; none where there is no payload.
pub open spec fn rtp_payload_at(p: Seq<u8>) -> Option<int> {
    let fixed = 12 + (p[0] % 16) * 4;
    let has_ext = p[0] / 16 % 2 == 1;
    if p.len() < 13 || (has_ext && p.len() < fixed + 4) {
        None
    } else {
        let at = if has_ext { fixed + 4 + be16(p, fixed + 2) * 4 } else { fixed };
        if at < p.len() {
            Some(at)
        } else {
            None
        }
    }
}

/// Where the VP8 frame begins behind the payload descriptor at `at` (RFC 7741);
/// none where the descriptor is cut off. The position may lie behind the end.
pub open spec fn vp8_frame_at(p: Seq<u8>, at: int) -> Option<int> {
    if p[at] < 0x80 {
        Some(at + 1)
    } else if p.len() <= at + 1 {
        None
    } else {
        let x = p[at + 1];
        let picture_id: int = if x < 0x80 { 0 } else if p[at + 2] >= 0x80 { 2 } else { 1 };
        let tl0: int = if x / 64 % 2 == 1 { 1 } else { 0 };
        let tid: int = if x / 16 % 4 != 0 { 1 } else { 0 };
        if x >= 0x80 && p.len() <= at + 2 {
            None
        } else {
            Some(at + 2 + picture_id + tl0 + tid)
        }
    }
}

/// The first byte of the VP8 frame in the payload at `at`.
pub open spec fn vp8_frame_byte(p: Seq<u8>, at: int) -> Option<u8> {
    match vp8_frame_at(p, at) {
        Some(i) => if i < p.len() { Some(p[i]) } else { None },
        None => None,
    }
}

/// Whether the packet begins a partition whose frame is a key frame.
pub open spec fn vp8_keyframe(p: Seq<u8>) -> bool {
    match rtp_payload_at(p) {
        Some(at) => p[at] / 16 % 2 == 1 && match vp8_frame_byte(p, at) {
            Some(b) => b % 2 == 0,
            None => false,
        },
        None => false,
    }
}

fn payload_at(p: &[u8]) -> (r: Option<usize>)
    ensures
        match r {
            Some(i) => rtp_payload_at(p@) == Some(i as int) && i < p@.len(),
            None => rtp_payload_at(p@) is None,
        },
{
    let n: usize = p.len();
    if n < 13 {
        return None;
    }
    let fixed: usize = 12 + (p[0] % 16) as usize * 4;
    if p[0] / 16 % 2 == 1 {
        if n < fixed + 4 {
            return None;
        }
        let ext: usize = 4 + read_u16(p, fixed + 2) as usize * 4;
        if ext >= n - fixed {
            return None;
        }
        Some(fixed + ext)
    } else if n <= fixed {
        None
    } else {
        Some(fixed)
    }
}

fn frame_byte_at(p: &[u8], at: usize) -> (r: Option<u8>)
    requires
        at < p@.len(),
    ensures
        r == vp8_frame_byte(p@, at as int),
{
    let n: usize = p.len();
    let left: usize = n - at;
    let mut skip: usize = 1;
    if p[at] >= 0x80 {
        if left <= 1 {
            return None;
        }
        let x: u8 = p[at + 1];
        skip = 2;
        if x >= 0x80 {
            if left <= 2 {
                return None;
            }
            skip = if p[at + 2] >= 0x80 { 4 } else { 3 };
        }
        if x / 64 % 2 == 1 {
            skip += 1;
        }
        if x / 16 % 4 != 0 {
            skip += 1;
        }
    }
    if left > skip {
        Some(p[at + skip])
    } else {
        None
    }
}

/// Whether an RTP packet begins a VP8 key frame.
pub fn is_vp8_keyframe(rtp_plaintext: &[u8]) -> (r: bool)
    ensures
        r == vp8_keyframe(rtp_plaintext@),
{
    match payload_at(rtp_plaintext) {
        Some(at) => {
            if rtp_plaintext[at] / 16 % 2 != 1 {
                return false;
            }
            match frame_byte_at(rtp_plaintext, at) {
                Some(b) => b % 2 == 0,
                None => false,
            }
        },
        None => false,
    }
}

/// What can be seen of a VP8 packet; none where it has no payload.
pub fn diagnose_vp8(rtp_plaintext: &[u8]) -> (r: Option<Vp8Diag>)
    ensures
        r is Some <==> rtp_payload_at(rtp_plaintext@) is Some,
        r matches Some(d) ==> {
            let at = rtp_payload_at(rtp_plaintext@)->0;
            &&& d.is_keyframe == vp8_keyframe(rtp_plaintext@)
            &&& forall|i: int|
                0 <= i < 4 ==> #[trigger] d.pd_bytes@[i] == (if at + i < rtp_plaintext@.len() {
                    rtp_plaintext@[at + i]
                } else {
                    0
                })
            &&& d.frame_byte == vp8_frame_byte(rtp_plaintext@, at)
            &&& d.s_bit == (rtp_plaintext@[at] / 16 % 2 == 1)
            &&& d.payload_offset == at
            &&& d.payload_len == rtp_plaintext@.len() - at
        },
{
    match payload_at(rtp_plaintext) {
        Some(at) => {
            let payload_len: usize = rtp_plaintext.len() - at;
            let s_bit: bool = rtp_plaintext[at] / 16 % 2 == 1;
            let b1: u8 = if payload_len > 1 { rtp_plaintext[at + 1] } else { 0 };
            let b2: u8 = if payload_len > 2 { rtp_plaintext[at + 2] } else { 0 };
            let b3: u8 = if payload_len > 3 { rtp_plaintext[at + 3] } else { 0 };
            let frame_byte = frame_byte_at(rtp_plaintext, at);
            let is_keyframe: bool = s_bit && match frame_byte {
                Some(b) => b % 2 == 0,
                None => false,
            };
            Some(
                Vp8Diag {
                    is_keyframe,
                    pd_bytes: [rtp_plaintext[at], b1, b2, b3],
                    frame_byte,
                    s_bit,
                    payload_offset: at,
                    payload_len,
                },
            )
        },
        None => None,
    }
}

} // verus!
